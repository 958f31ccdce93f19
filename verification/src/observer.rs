//! Events, monitored regions and the observer capability.
//!
//! A region is watched with two thresholds: energy must exceed
//! `on_threshold` to enter the active state and must drop below
//! `off_threshold` to leave it; between the two the previous state is held,
//! which keeps values hovering near one threshold from chattering.

use vstd::prelude::*;
use std::ops::Range;

verus! {

/// Event emitted when field activity crosses a threshold.
pub enum FieldEvent {
    /// A region became active: its energy crossed `on_threshold` from below.
    RegionActive { region: Range<usize>, energy: u32, threshold: u32 },
    /// A region went quiet: its energy dropped below `off_threshold`.
    RegionQuiet { region: Range<usize>, energy: u32, threshold: u32 },
    /// At least the configured number of regions are active at once.
    Convergence { active_regions: Vec<Range<usize>>, total_energy: u64 },
    /// A local maximum was detected in a region.
    Peak { region: Range<usize>, energy: u32, tick: u64 },
}

/// The mathematical shape of a `FieldEvent`, with plain sequences for lists.
pub enum EventView {
    RegionActive { region: Range<usize>, energy: int, threshold: int },
    RegionQuiet { region: Range<usize>, energy: int, threshold: int },
    Convergence { active_regions: Seq<Range<usize>>, total_energy: int },
    Peak { region: Range<usize>, energy: int, tick: int },
}

impl View for FieldEvent {
    type V = EventView;

    open spec fn view(&self) -> EventView {
        match self {
            FieldEvent::RegionActive { region, energy, threshold } => EventView::RegionActive {
                region: *region,
                energy: *energy as int,
                threshold: *threshold as int,
            },
            FieldEvent::RegionQuiet { region, energy, threshold } => EventView::RegionQuiet {
                region: *region,
                energy: *energy as int,
                threshold: *threshold as int,
            },
            FieldEvent::Convergence { active_regions, total_energy } => EventView::Convergence {
                active_regions: active_regions@,
                total_energy: *total_energy as int,
            },
            FieldEvent::Peak { region, energy, tick } => EventView::Peak {
                region: *region,
                energy: *energy as int,
                tick: *tick as int,
            },
        }
    }
}

impl Clone for FieldEvent {
    /// Duplicate the event for delivery to the next observer.
    #[verifier::loop_isolation(false)]
    fn clone(&self) -> (e: Self)
        ensures
            e@ == self@,
    {
        match self {
            FieldEvent::RegionActive { region, energy, threshold } => FieldEvent::RegionActive {
                region: region.start..region.end,
                energy: *energy,
                threshold: *threshold,
            },
            FieldEvent::RegionQuiet { region, energy, threshold } => FieldEvent::RegionQuiet {
                region: region.start..region.end,
                energy: *energy,
                threshold: *threshold,
            },
            FieldEvent::Convergence { active_regions, total_energy } => {
                let n = active_regions.len();
                let mut ranges: Vec<Range<usize>> = Vec::new();
                let mut i: usize = 0;
                while i < n
                    invariant
                        i <= n,
                        ranges@ =~= active_regions@.subrange(0, i as int),
                    decreases n - i,
                {
                    let r = &active_regions[i];
                    ranges.push(r.start..r.end);
                    proof {
                        assert(ranges@ =~= active_regions@.subrange(0, i + 1));
                    }
                    i = i + 1;
                }
                proof {
                    assert(ranges@ =~= active_regions@);
                }
                FieldEvent::Convergence { active_regions: ranges, total_energy: *total_energy }
            },
            FieldEvent::Peak { region, energy, tick } => FieldEvent::Peak {
                region: region.start..region.end,
                energy: *energy,
                tick: *tick,
            },
        }
    }
}

/// The capability of receiving field events, implemented by listeners and
/// invoked synchronously on the writer's call stack.
pub trait FieldObserver: Send + Sync {
    /// Called once for every event the field emits.
    fn on_event(&self, event: FieldEvent);
}

/// Function-based observer for simple cases.
pub struct FnObserver<F: Fn(FieldEvent) + Send + Sync> {
    f: F,
}

impl<F: Fn(FieldEvent) + Send + Sync> FnObserver<F> {
    /// The wrapped closure accepts every event.
    #[verifier::type_invariant]
    spec fn callable(self) -> bool {
        forall|e: FieldEvent| #[trigger] self.f.requires((e,))
    }

    /// Wrap a closure; it must be callable on any event.
    pub fn new(f: F) -> (o: Self)
        requires
            forall|e: FieldEvent| #[trigger] f.requires((e,)),
    {
        FnObserver { f }
    }
}

impl<F: Fn(FieldEvent) + Send + Sync> FieldObserver for FnObserver<F> {
    fn on_event(&self, event: FieldEvent) {
        proof {
            use_type_invariant(self);
        }
        (self.f)(event);
    }
}

#[verifier::external_type_specification]
#[verifier::external_body]
#[verifier::reject_recursive_types(T)]
pub struct ExSender<T>(std::sync::mpsc::Sender<T>);

/// Relies on std's `mpsc::Sender::send`: it hands the event to the channel's
/// receiver, or returns it unread when the receiver is gone; it does not
/// panic. The result is discarded either way.
#[verifier::external_body]
fn send_event(sender: &std::sync::mpsc::Sender<FieldEvent>, event: FieldEvent) {
    let _ = sender.send(event);
}

/// Channel-based observer: forwards every event into an mpsc channel.
pub struct ChannelObserver {
    sender: std::sync::mpsc::Sender<FieldEvent>,
}

impl ChannelObserver {
    /// Wrap the sending end of a channel.
    pub fn new(sender: std::sync::mpsc::Sender<FieldEvent>) -> (o: Self) {
        ChannelObserver { sender }
    }
}

impl FieldObserver for ChannelObserver {
    fn on_event(&self, event: FieldEvent) {
        send_event(&self.sender, event);
    }
}

/// Default hysteresis gap in percent: a region built from a single threshold
/// gets `off_threshold = on_threshold * (100 - gap) / 100`.
pub const DEFAULT_HYSTERESIS_GAP: u8 = 20;

/// Scaling a threshold by a percentage never enlarges it.
proof fn lemma_percent_le(t: int, p: int)
    requires
        t >= 0,
        0 <= p <= 100,
    ensures
        0 <= t * p / 100 <= t,
{
    assert(0 <= t * p / 100 <= t) by (nonlinear_arith)
        requires
            t >= 0,
            0 <= p <= 100,
    ;
}

/// A region being monitored for activity, with hysteresis thresholds.
pub struct MonitoredRegion {
    /// Name for identification and diagnostics.
    pub name: String,
    /// Dimension range.
    pub range: Range<usize>,
    /// Energy threshold to enter the active state (the higher one).
    pub on_threshold: u32,
    /// Energy threshold to leave the active state (the lower one).
    pub off_threshold: u32,
    /// Weight in percent for convergence aggregation (100 = 1.0).
    pub weight: u8,
}

impl MonitoredRegion {
    /// The thresholds are ordered: leaving is never harder than entering.
    pub open spec fn wf(self) -> bool {
        self.off_threshold <= self.on_threshold
    }

    /// Create a region with the default hysteresis gap of 20 percent.
    pub fn new(name: &str, range: Range<usize>, threshold: u32) -> (r: Self)
        ensures
            r.name@ == name@,
            r.range == range,
            r.on_threshold == threshold,
            r.off_threshold as int == threshold as int * 80 / 100,
            r.weight == 100,
            r.wf(),
    {
        proof {
            lemma_percent_le(threshold as int, 80);
        }
        let off = ((threshold as u64) * ((100 - DEFAULT_HYSTERESIS_GAP) as u64) / 100) as u32;
        MonitoredRegion {
            name: name.to_owned(),
            range,
            on_threshold: threshold,
            off_threshold: off,
            weight: 100,
        }
    }

    /// Create a region with explicit hysteresis thresholds.
    pub fn with_hysteresis(name: &str, range: Range<usize>, on_threshold: u32, off_threshold: u32) -> (r: Self)
        requires
            off_threshold <= on_threshold,
        ensures
            r.name@ == name@,
            r.range == range,
            r.on_threshold == on_threshold,
            r.off_threshold == off_threshold,
            r.weight == 100,
            r.wf(),
    {
        MonitoredRegion { name: name.to_owned(), range, on_threshold, off_threshold, weight: 100 }
    }

    /// Set the hysteresis gap as a percentage of the on threshold.
    pub fn with_gap(self, gap: u8) -> (r: Self)
        ensures
            r.name == self.name,
            r.range == self.range,
            r.on_threshold == self.on_threshold,
            r.off_threshold as int == self.on_threshold as int * (100 - (if gap > 100 {
                100int
            } else {
                gap as int
            })) / 100,
            r.weight == self.weight,
            r.wf(),
    {
        let gap = if gap > 100 {
            100
        } else {
            gap
        };
        proof {
            lemma_percent_le(self.on_threshold as int, 100 - gap as int);
        }
        let off = ((self.on_threshold as u64) * ((100 - gap) as u64) / 100) as u32;
        MonitoredRegion { off_threshold: off, ..self }
    }

    /// Set the convergence weight in percent.
    pub fn with_weight(self, weight: u8) -> (r: Self)
        ensures
            r.name == self.name,
            r.range == self.range,
            r.on_threshold == self.on_threshold,
            r.off_threshold == self.off_threshold,
            r.weight == weight,
    {
        MonitoredRegion { weight, ..self }
    }

    /// The hysteresis gap as a percentage of the on threshold.
    pub fn hysteresis_gap(&self) -> (r: u8)
        requires
            self.wf(),
        ensures
            r as int == if self.on_threshold > 0 {
                100 - self.off_threshold as int * 100 / self.on_threshold as int
            } else {
                0int
            },
    {
        if self.on_threshold > 0 {
            proof {
                assert(self.off_threshold as int * 100 / self.on_threshold as int <= 100)
                    by (nonlinear_arith)
                    requires
                        0 <= self.off_threshold <= self.on_threshold,
                        self.on_threshold > 0,
                ;
            }
            let q: u64 = (self.off_threshold as u64) * 100 / (self.on_threshold as u64);
            (100 - q) as u8
        } else {
            0
        }
    }
}

impl Clone for MonitoredRegion {
    /// Duplicate the region description.
    fn clone(&self) -> (r: Self)
        ensures
            r == *self,
    {
        MonitoredRegion {
            name: self.name.clone(),
            range: self.range.start..self.range.end,
            on_threshold: self.on_threshold,
            off_threshold: self.off_threshold,
            weight: self.weight,
        }
    }
}

/// Configuration of what triggers notifications.
pub struct TriggerConfig {
    /// Regions to monitor.
    pub regions: Vec<MonitoredRegion>,
    /// Minimum number of simultaneously active regions for a convergence
    /// event.
    pub convergence_threshold: usize,
}

impl Clone for TriggerConfig {
    /// Duplicate the trigger configuration.
    #[verifier::loop_isolation(false)]
    fn clone(&self) -> (r: Self)
        ensures
            r.regions@ == self.regions@,
            r.convergence_threshold == self.convergence_threshold,
    {
        let n = self.regions.len();
        let mut regions: Vec<MonitoredRegion> = Vec::new();
        let mut i: usize = 0;
        while i < n
            invariant
                i <= n,
                regions@ =~= self.regions@.subrange(0, i as int),
            decreases n - i,
        {
            regions.push(self.regions[i].clone());
            proof {
                assert(regions@ =~= self.regions@.subrange(0, i + 1));
            }
            i = i + 1;
        }
        proof {
            assert(regions@ =~= self.regions@);
        }
        TriggerConfig { regions, convergence_threshold: self.convergence_threshold }
    }
}

impl Default for TriggerConfig {
    /// No regions, and a convergence threshold of two.
    fn default() -> (c: Self)
        ensures
            c.regions@ == Seq::<MonitoredRegion>::empty(),
            c.convergence_threshold == 2,
    {
        TriggerConfig { regions: Vec::new(), convergence_threshold: 2 }
    }
}

} // verus!

use vstd::prelude::*;

verus! {

/// The stage labels the optimizer reports while it runs; generation moves
/// from `Reading` through `Generating` and `Writing` to `Finished` unless
/// it is cancelled or fails first.
#[derive(Debug, Clone, Copy, PartialEq, Eq, Structural)]
pub enum Stage {
    Reading,
    Generating,
    Writing,
    Finished,
}

/// The caller-supplied progress and cancellation channel.
///
/// The optimizer invokes `report` between discrete units of work (a row, a
/// quadrant, or an elevation level) with a stage label and the fraction
/// `done / total`; successive fractions never decrease. A `false` result
/// asks generation to stop: the optimizer then yields the cancelled
/// outcome before processing any further unit, and no partial brick set
/// reaches an encoder. Delivery is best-effort: the engine guarantees
/// monotonic non-decrease and a final terminal value, not every
/// intermediate fraction.
pub trait ProgressReporter {
    /// Reports `done` of `total` units complete in `stage`; returns whether
    /// generation should continue.
    fn report(&mut self, stage: Stage, done: usize, total: usize) -> bool;
}

/// A reporter that discards progress and never cancels.
pub struct SilentReporter {
}

impl ProgressReporter for SilentReporter {
    fn report(&mut self, stage: Stage, done: usize, total: usize) -> bool {
        true
    }
}

/// A reporter that cancels after a fixed number of polls, counting down one
/// per call; useful for exercising cooperative cancellation.
pub struct CancelAfter {
    pub polls_left: usize,
}

impl ProgressReporter for CancelAfter {
    fn report(&mut self, stage: Stage, done: usize, total: usize) -> bool {
        if self.polls_left == 0 {
            false
        } else {
            self.polls_left = self.polls_left - 1;
            true
        }
    }
}

} // verus!

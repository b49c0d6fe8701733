//! One snowflake in the making: a planner and the random source that its
//! draws come from, created together from a seed and never parted.

use crate::config::Config;
use crate::plan::Awaited;
use crate::plan::Command;
use crate::plan::Event;
use crate::plan::PlannerView;
use crate::plan::StepError;
use crate::planner::Planner;
use crate::source::RandomSource;
use vstd::prelude::*;

verus! {

/// Lowest value of the draw that is made and dropped before the first arm.
pub const HINT_LOW: i32 = 5;

/// Highest value of the draw that is made and dropped before the first arm.
pub const HINT_HIGH: i32 = 8;

/// A snowflake that is being generated.
///
/// The source is public, because the backend draws the reals (widths,
/// offsets, lengths, rotations) from it while it carries a command out. The
/// integers are drawn here.
pub struct Snowflake {
    pub source: RandomSource,
    planner: Planner,
}

impl View for Snowflake {
    type V = PlannerView;

    closed spec fn view(&self) -> PlannerView {
        self.planner@
    }
}

impl Config {
    /// Begins the snowflake of `seed`. The source is made from the seed, and
    /// one value in `5..=8` is drawn from it and dropped: the stream that the
    /// arms are drawn from starts one draw in.
    pub fn snowflake(&self, seed: u64) -> (begun: Snowflake)
        ensures
            begun@ == PlannerView::initial(self@),
    {
        let mut source = RandomSource::new(seed);
        let _ = source.uniform_small(HINT_LOW, HINT_HIGH);
        Snowflake { source, planner: Planner::new(*self) }
    }
}

impl Snowflake {
    /// The configuration of this snowflake.
    pub fn config(&self) -> (config: Config)
        ensures
            config@ == self@.config,
    {
        self.planner.config()
    }

    /// The event that the next step takes.
    pub fn awaits(&self) -> (awaited: Awaited)
        ensures
            awaited == self@.awaits(),
    {
        self.planner.awaits()
    }

    /// Whether the plan is complete.
    pub fn is_finished(&self) -> (finished: bool)
        ensures
            finished == (self@.phase is Done),
    {
        self.planner.is_finished()
    }

    /// The number of arms that are being drawn, one inside the other.
    pub fn nesting(&self) -> (arms: usize)
        ensures
            self@.wf(),
            arms == self@.nesting(),
            arms <= self@.config.max_depth,
    {
        self.planner.nesting()
    }

    /// One step of the planner on an event that the caller supplies.
    pub fn step(&mut self, event: Event) -> (emitted: Result<Command, StepError>)
        ensures
            (final(self)@, emitted) == old(self)@.step(event),
            old(self)@.wf(),
            final(self)@.wf(),
    {
        self.planner.step(event)
    }

    /// One step of the planner, with the child count drawn here.
    ///
    /// Where the planner awaits a child count and `event` is `Proceed`, a
    /// count between zero and the configured maximum is drawn from the
    /// source, and the step is made on it. Any other step is made on `event`
    /// as it is.
    pub fn advance(&mut self, event: Event) -> (emitted: Result<Command, StepError>)
        ensures
            old(self)@.wf(),
            final(self)@.wf(),
            old(self)@.awaits() == Awaited::ChildCount && event == Event::Proceed ==> exists|
                count: usize,
            |
                count <= old(self)@.config.max_children && (final(self)@, emitted) == #[trigger] old(
                    self,
                )@.step(Event::ChildCount(count)),
            !(old(self)@.awaits() == Awaited::ChildCount && event == Event::Proceed) ==> (
                final(self)@,
                emitted,
            ) == old(self)@.step(event),
    {
        let draws = match (self.planner.awaits(), event) {
            (Awaited::ChildCount, Event::Proceed) => true,
            _ => false,
        };
        if draws {
            let most = self.planner.config().max_children();
            let count = self.source.uniform_int(0, most);
            self.planner.step(Event::ChildCount(count))
        } else {
            self.planner.step(event)
        }
    }
}

} // verus!

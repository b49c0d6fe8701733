//! The construction of a snowflake as a protocol.
//!
//! A planner emits one [`Command`] per step. The backend that carries the
//! commands out owns the geometry and the lengths that were drawn; it answers
//! with an [`Event`] where the planner has asked for a value. This module
//! holds the vocabulary and the mathematical model of the planner: a state
//! and a total step function on it.
//!
//! The backend works on a stack of regions. `Arm` and `Empty` push a region.
//! `Child` draws where the next child of the innermost arm sits and how long
//! it is. `Place` moves the region on top, a finished child, to its place on
//! its parent; `Join` unions it into the parent below it, `JoinMirrored`
//! unions its mirror image in and drops it. What remains at the end of the
//! root arm is replicated around the centre and made into the solid.

use crate::config::ConfigView;
use crate::measure::Ratio;
use crate::solid::boss_model;
use crate::solid::extrusion_model;
use crate::solid::magnet_model;
use crate::solid::Boss;
use crate::solid::Cylinder;
use crate::solid::Extrusion;
use vstd::prelude::*;

verus! {

/// Copies of the silhouette that are unioned in around the centre. The
/// number belongs to the design and depends on no configuration.
pub const REPLICAS: usize = 6;

/// Degrees in a full turn.
pub const FULL_TURN_DEGREES: u64 = 360;

/// Degrees in half a turn. A child is laid along its parent and then turned
/// back by what its rotation lacks of half a turn.
pub const HALF_TURN_DEGREES: u64 = 180;

/// The ranges that the place and the length of a child are drawn from. All
/// three are half open: the upper bound is not drawn.
#[derive(Clone, Copy, Debug, PartialEq, Eq, Structural)]
pub struct ChildRanges {
    /// The offset along the parent lies between zero and this share of the
    /// parent's length.
    pub reach: Ratio,
    /// The length lies between zero and this share of the parent's length.
    pub shrink: Ratio,
    /// The rotation from the parent's axis is at least this many degrees.
    pub least_turn: u64,
    /// The rotation from the parent's axis is less than this many degrees.
    pub most_turn: u64,
}

/// A child sits on the first four fifths of its parent, is shorter than nine
/// tenths of it, and is turned between 30 and 170 degrees away from it.
pub open spec fn child_ranges_model() -> ChildRanges {
    ChildRanges {
        reach: Ratio { numerator: 4, denominator: 5 },
        shrink: Ratio { numerator: 9, denominator: 10 },
        least_turn: 30,
        most_turn: 170,
    }
}

/// The ranges that a backend draws from when it carries out `Child`.
pub fn child_ranges() -> (ranges: ChildRanges)
    ensures
        ranges == child_ranges_model(),
        ranges.shrink.numerator < ranges.shrink.denominator,
        ranges.reach.numerator < ranges.reach.denominator,
        ranges.least_turn < ranges.most_turn < HALF_TURN_DEGREES,
{
    ChildRanges {
        reach: Ratio { numerator: 4, denominator: 5 },
        shrink: Ratio { numerator: 9, denominator: 10 },
        least_turn: 30,
        most_turn: 170,
    }
}

/// One instruction to the geometry backend.
#[derive(Clone, Copy, Debug, PartialEq, Eq, Structural)]
pub enum Command {
    /// Draw a width, narrow it by `taper`, and push the arm's own region: a
    /// rectangle with a round tip.
    Arm { depth: usize, taper: Ratio },
    /// Push the empty region: this arm is not drawn.
    Empty,
    /// Draw offset, length and rotation of the next child of the innermost
    /// arm from the ranges of [`child_ranges`], in this order, and report
    /// whether the child falls under the cutoff.
    Child,
    /// Turn the finished child by what its rotation lacks of half a turn,
    /// and shift it along its parent by its offset.
    Place,
    /// Union the placed child into its parent.
    Join,
    /// Union the mirror image of the placed child into its parent.
    JoinMirrored,
    /// Union into the silhouette a copy of itself, turned by `index / count`
    /// of a full turn.
    Replicate { index: usize, count: usize },
    /// Extrude the silhouette.
    Extrude { slab: Extrusion },
    /// Fuse the boss to the solid.
    Mount { foot: Boss },
    /// Cut the socket out of the solid.
    Socket { magnet: Cylinder },
}

/// What the backend hands to the planner with a step.
#[derive(Clone, Copy, Debug, PartialEq, Eq, Structural)]
pub enum Event {
    /// The last command is carried out; nothing was asked.
    Proceed,
    /// The number of children that the arm just drawn gets.
    ChildCount(usize),
    /// Whether the child just drawn falls under the cutoff.
    ChildLength { short: bool },
}

/// Which event the planner takes next.
#[derive(Clone, Copy, Debug, PartialEq, Eq, Structural)]
pub enum Awaited {
    Proceed,
    ChildCount,
    ChildLength,
    /// The plan is complete: no event is taken.
    Nothing,
}

/// Why a step was refused. A refused step changes nothing.
#[derive(Clone, Copy, Debug, PartialEq, Eq, Structural)]
pub enum StepError {
    /// The plan is complete.
    Finished,
    /// The event is not the one that the planner awaits.
    Unexpected,
    /// The child count exceeds the configured maximum.
    TooManyChildren,
}

/// Where the planner stands.
#[derive(Clone, Copy, Debug, PartialEq, Eq, Structural)]
pub enum Phase {
    /// Nothing is emitted yet.
    Start,
    /// An arm is drawn and waits for the number of its children.
    Counting,
    /// The innermost arm goes on to its next child, or closes.
    Branching,
    /// A child is drawn and waits for the verdict on its length.
    Measuring,
    /// A child that is not drawn waits to be placed.
    Returned,
    /// A child is placed.
    Placed,
    /// A child is unioned into its parent; its mirror image is not yet.
    Joined,
    /// The root arm is closed, and `made` copies are unioned in.
    Replicating { made: usize },
    /// The silhouette is extruded.
    Extruded,
    /// The boss is fused.
    Mounted,
    /// The socket is cut: the plan is complete.
    Done,
}

/// The state of a planner. `open` holds, for every arm that is drawn and
/// counted but not yet closed, from the root inwards, the number of its
/// children that are still to be drawn.
pub struct PlannerView {
    pub config: ConfigView,
    pub open: Seq<usize>,
    pub phase: Phase,
}

impl PlannerView {
    /// The state before the first step.
    pub open spec fn initial(config: ConfigView) -> PlannerView {
        PlannerView { config, open: Seq::empty(), phase: Phase::Start }
    }

    /// The invariant of the planner: no more arms are open than the ceiling
    /// allows, no arm expects more children than the maximum, and the phase
    /// fits the nesting.
    pub open spec fn wf(self) -> bool {
        &&& forall|i: int| 0 <= i < self.open.len() ==> self.open[i] <= self.config.max_children
        &&& match self.phase {
            Phase::Start => self.open.len() == 0,
            Phase::Counting => self.open.len() < self.config.max_depth,
            Phase::Branching
            | Phase::Measuring
            | Phase::Returned
            | Phase::Placed
            | Phase::Joined => 1 <= self.open.len() <= self.config.max_depth,
            Phase::Replicating { made } => self.open.len() == 0 && made <= REPLICAS,
            Phase::Extruded | Phase::Mounted | Phase::Done => self.open.len() == 0,
        }
    }

    /// The event that the next step takes.
    pub open spec fn awaits(self) -> Awaited {
        match self.phase {
            Phase::Done => Awaited::Nothing,
            Phase::Counting => Awaited::ChildCount,
            Phase::Measuring => Awaited::ChildLength,
            _ => Awaited::Proceed,
        }
    }

    /// The number of arms that are being drawn: those open and counted, and
    /// the one that waits for its count.
    pub open spec fn nesting(self) -> nat {
        if self.phase is Counting {
            self.open.len() + 1
        } else {
            self.open.len()
        }
    }

    /// The same state with another phase.
    pub open spec fn at(self, phase: Phase) -> PlannerView {
        PlannerView { phase, ..self }
    }

    /// An arm of this length verdict begins at `depth`: at the ceiling, or
    /// under the cutoff, it is the empty region; else it is drawn.
    pub open spec fn enter(self, depth: usize, short: bool, rest: Phase) -> (PlannerView, Command) {
        if depth == self.config.max_depth || short {
            (self.at(rest), Command::Empty)
        } else {
            (
                self.at(Phase::Counting),
                Command::Arm { depth, taper: self.config.depth_scale(depth) },
            )
        }
    }

    /// An arm has closed. The root arm is followed by the first copy of the
    /// silhouette, any other arm by its placement on its parent.
    pub open spec fn close(self) -> (PlannerView, Command) {
        if self.open.len() == 0 {
            (
                self.at(Phase::Replicating { made: 1 }),
                Command::Replicate { index: 0, count: REPLICAS },
            )
        } else {
            (self.at(Phase::Placed), Command::Place)
        }
    }

    /// The innermost arm goes on: to its next child while one is left, and
    /// else it closes.
    pub open spec fn branch(self) -> (PlannerView, Command)
        recommends
            self.open.len() > 0,
    {
        let left = self.open.last();
        if left > 0 {
            (
                PlannerView {
                    open: self.open.drop_last().push((left - 1) as usize),
                    phase: Phase::Measuring,
                    ..self
                },
                Command::Child,
            )
        } else {
            (PlannerView { open: self.open.drop_last(), ..self }).close()
        }
    }

    /// What a step emits after the root arm has closed.
    pub open spec fn finish(self) -> (PlannerView, Command) {
        match self.phase {
            Phase::Replicating { made } => if made < REPLICAS {
                (
                    self.at(Phase::Replicating { made: (made + 1) as usize }),
                    Command::Replicate { index: made, count: REPLICAS },
                )
            } else {
                (self.at(Phase::Extruded), Command::Extrude { slab: extrusion_model() })
            },
            Phase::Extruded => (self.at(Phase::Mounted), Command::Mount { foot: boss_model() }),
            _ => (self.at(Phase::Done), Command::Socket { magnet: magnet_model() }),
        }
    }

    /// The command of a step that is accepted, and the state after it.
    pub open spec fn accept(self, event: Event) -> (PlannerView, Command) {
        match self.phase {
            Phase::Start => self.enter(
                0,
                self.config.root_is_short(),
                Phase::Replicating { made: 0 },
            ),
            Phase::Counting => (PlannerView {
                open: self.open.push(event->ChildCount_0),
                ..self
            }).branch(),
            Phase::Branching => self.branch(),
            Phase::Measuring => self.enter(
                self.open.len() as usize,
                event->short,
                Phase::Returned,
            ),
            Phase::Returned => (self.at(Phase::Placed), Command::Place),
            Phase::Placed => (self.at(Phase::Joined), Command::Join),
            Phase::Joined => (self.at(Phase::Branching), Command::JoinMirrored),
            _ => self.finish(),
        }
    }

    /// The error of a step that is refused, if this one is.
    pub open spec fn refusal(self, event: Event) -> Option<StepError> {
        match (self.awaits(), event) {
            (Awaited::Nothing, _) => Some(StepError::Finished),
            (Awaited::Proceed, Event::Proceed) => None,
            (Awaited::ChildLength, Event::ChildLength { .. }) => None,
            (Awaited::ChildCount, Event::ChildCount(count)) => if count
                > self.config.max_children {
                Some(StepError::TooManyChildren)
            } else {
                None
            },
            _ => Some(StepError::Unexpected),
        }
    }

    /// One step: the state after it and what it returns. A refused step
    /// leaves the state as it is.
    pub open spec fn step(self, event: Event) -> (PlannerView, Result<Command, StepError>) {
        match self.refusal(event) {
            Some(error) => (self, Err(error)),
            None => (self.accept(event).0, Ok(self.accept(event).1)),
        }
    }
}

/// Every step keeps the invariant.
pub proof fn lemma_step_keeps_wf(state: PlannerView, event: Event)
    requires
        state.wf(),
    ensures
        state.step(event).0.wf(),
{
    if state.refusal(event) is None {
        match state.phase {
            Phase::Counting => {
                let counted = PlannerView { open: state.open.push(event->ChildCount_0), ..state };
                lemma_branch_keeps_bounds(counted);
            },
            Phase::Branching => {
                lemma_branch_keeps_bounds(state);
            },
            _ => {},
        }
    }
}

/// What [`PlannerView::branch`] leaves of an innermost arm and of those
/// around it.
proof fn lemma_branch_keeps_bounds(state: PlannerView)
    requires
        1 <= state.open.len() <= state.config.max_depth,
        forall|i: int| 0 <= i < state.open.len() ==> state.open[i] <= state.config.max_children,
    ensures
        state.branch().0.wf(),
{
    let after = state.branch().0;
    let left = state.open.last();
    if left > 0 {
        assert forall|i: int| 0 <= i < after.open.len() implies after.open[i]
            <= state.config.max_children by {
            if i < state.open.len() - 1 {
                assert(after.open[i] == state.open[i]);
            }
        }
    } else {
        assert forall|i: int| 0 <= i < after.open.len() implies after.open[i]
            <= state.config.max_children by {
            assert(after.open[i] == state.open[i]);
        }
    }
}

} // verus!

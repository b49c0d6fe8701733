//! Runs of the planner: what it passes through and what it emits when it is
//! fed a sequence of events, whoever supplies them.

use crate::config::ConfigView;
use crate::plan::Awaited;
use crate::plan::Command;
use crate::plan::Event;
use crate::plan::PlannerView;
use crate::plan::lemma_step_keeps_wf;
use vstd::prelude::*;

verus! {

/// The state after the steps on `events`, made in order from `state`.
pub open spec fn run(state: PlannerView, events: Seq<Event>) -> PlannerView
    decreases events.len(),
{
    if events.len() == 0 {
        state
    } else {
        run(state, events.drop_last()).step(events.last()).0
    }
}

/// The commands that the steps on `events` emit, in order. A refused step
/// emits none.
pub open spec fn trace(state: PlannerView, events: Seq<Event>) -> Seq<Command>
    decreases events.len(),
{
    if events.len() == 0 {
        Seq::empty()
    } else {
        let before = trace(state, events.drop_last());
        match run(state, events.drop_last()).step(events.last()).1 {
            Ok(command) => before.push(command),
            Err(_) => before,
        }
    }
}

/// An event that the planner accepts in this state: nothing more to draw,
/// and a child too short to be drawn.
pub open spec fn smallest_answer(state: PlannerView) -> Event {
    match state.awaits() {
        Awaited::ChildCount => Event::ChildCount(0),
        Awaited::ChildLength => Event::ChildLength { short: true },
        _ => Event::Proceed,
    }
}

/// Every run keeps the invariant and the configuration.
pub proof fn lemma_run_keeps_wf(state: PlannerView, events: Seq<Event>)
    requires
        state.wf(),
    ensures
        run(state, events).wf(),
        run(state, events).config == state.config,
    decreases events.len(),
{
    if events.len() > 0 {
        lemma_run_keeps_wf(state, events.drop_last());
        lemma_step_keeps_wf(run(state, events.drop_last()), events.last());
    }
}

/// The planner is a function of what it is fed: two runs from the same
/// configuration on the same events pass through the same states and emit
/// the same commands.
pub proof fn lemma_same_events_same_plan(
    config: ConfigView,
    events: Seq<Event>,
    other: Seq<Event>,
)
    requires
        events =~= other,
    ensures
        run(PlannerView::initial(config), events) == run(PlannerView::initial(config), other),
        trace(PlannerView::initial(config), events) == trace(
            PlannerView::initial(config),
            other,
        ),
{
}

/// Until the plan is complete the planner is never stuck: it accepts the
/// event that it awaits, with any verdict and with any count up to the
/// maximum.
pub proof fn lemma_awaited_event_is_accepted(state: PlannerView, event: Event)
    requires
        !(state.phase is Done),
        match event {
            Event::Proceed => state.awaits() == Awaited::Proceed,
            Event::ChildCount(count) => state.awaits() == Awaited::ChildCount && count
                <= state.config.max_children,
            Event::ChildLength { .. } => state.awaits() == Awaited::ChildLength,
        },
    ensures
        state.step(event).1 is Ok,
        state.step(smallest_answer(state)).1 is Ok,
{
}

/// The draws of a generation come in a fixed order: the count of an arm's
/// children is awaited as soon as the arm is drawn, and so after its width;
/// the verdict on a child is awaited as soon as the child is drawn; and no
/// other command leaves the planner waiting for a value.
pub proof fn lemma_draws_are_ordered(state: PlannerView, event: Event)
    requires
        state.wf(),
        state.step(event).1 is Ok,
    ensures
        state.step(event).0.awaits() == match state.step(event).1->Ok_0 {
            Command::Arm { .. } => Awaited::ChildCount,
            Command::Child => Awaited::ChildLength,
            Command::Socket { .. } => Awaited::Nothing,
            _ => Awaited::Proceed,
        },
{
}

/// Every arm that is drawn lies above the ceiling: its depth is the number
/// of arms open around it and is less than `max_depth`.
pub proof fn lemma_arm_is_above_ceiling(state: PlannerView, event: Event)
    requires
        state.wf(),
        state.step(event).1 matches Ok(Command::Arm { .. }),
    ensures
        state.step(event).1 matches Ok(Command::Arm { depth, taper }) && {
            &&& depth == state.nesting()
            &&& depth < state.config.max_depth
            &&& taper == state.config.depth_scale(depth)
            &&& taper.numerator > 0
            &&& state.step(event).0.nesting() == depth + 1
        },
{
}

/// In every run from the start, no arm is drawn at the ceiling or below it,
/// and the arms in the making never nest deeper than `max_depth`.
pub proof fn lemma_depth_is_bounded(config: ConfigView, events: Seq<Event>, at: int)
    requires
        0 <= at < trace(PlannerView::initial(config), events).len(),
    ensures
        run(PlannerView::initial(config), events).nesting() <= config.max_depth,
        trace(PlannerView::initial(config), events)[at] matches Command::Arm { depth, .. }
            ==> depth < config.max_depth,
    decreases events.len(),
{
    let start = PlannerView::initial(config);
    lemma_run_keeps_wf(start, events);
    if events.len() > 0 {
        let before = run(start, events.drop_last());
        lemma_run_keeps_wf(start, events.drop_last());
        if at < trace(start, events.drop_last()).len() {
            lemma_depth_is_bounded(config, events.drop_last(), at);
        } else {
            if before.step(events.last()).1 matches Ok(Command::Arm { .. }) {
                lemma_arm_is_above_ceiling(before, events.last());
            }
        }
    }
}

/// Whether the commands around `at` pair the two unions of a child: a
/// `Join` stands between the `Place` of the child and its `JoinMirrored`,
/// and a `JoinMirrored` stands behind a `Join`.
pub open spec fn paired_at(plan: Seq<Command>, at: int) -> bool {
    &&& plan[at] is Place && at + 1 < plan.len() ==> plan[at + 1] is Join
    &&& plan[at] is Join ==> at >= 1 && plan[at - 1] is Place
    &&& plan[at] is Join && at + 1 < plan.len() ==> plan[at + 1] is JoinMirrored
    &&& plan[at] is JoinMirrored ==> at >= 1 && plan[at - 1] is Join
}

/// The last command of a run tells whether a child stands placed or half
/// joined.
proof fn lemma_last_command_tells_phase(config: ConfigView, events: Seq<Event>)
    ensures
        ({
            let plan = trace(PlannerView::initial(config), events);
            let phase = run(PlannerView::initial(config), events).phase;
            &&& phase is Placed <==> plan.len() > 0 && plan.last() is Place
            &&& phase is Joined <==> plan.len() > 0 && plan.last() is Join
        }),
    decreases events.len(),
{
    if events.len() > 0 {
        lemma_last_command_tells_phase(config, events.drop_last());
    }
}

/// The two unions of a child stand side by side.
///
/// In every run from the start, complete or not, the command after a
/// `Place` is `Join` and the command after a `Join` is `JoinMirrored`, and
/// neither union is emitted in any other place.
pub proof fn lemma_children_join_in_pairs(config: ConfigView, events: Seq<Event>, at: int)
    requires
        0 <= at < trace(PlannerView::initial(config), events).len(),
    ensures
        paired_at(trace(PlannerView::initial(config), events), at),
    decreases events.len(),
{
    let start = PlannerView::initial(config);
    if events.len() > 0 {
        let before = trace(start, events.drop_last());
        let state = run(start, events.drop_last());
        lemma_last_command_tells_phase(config, events.drop_last());
        if state.step(events.last()).1 is Ok {
            if at < before.len() {
                lemma_children_join_in_pairs(config, events.drop_last(), at);
            }
        } else {
            lemma_children_join_in_pairs(config, events.drop_last(), at);
        }
    }
}

} // verus!

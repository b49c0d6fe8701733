//! Every plan ends.
//!
//! A snowflake can grow no further than its configuration lets it: the
//! ceiling bounds how deep the arms nest, the maximum bounds how many
//! children each of them has. From the two comes a budget of commands, and a
//! measure on the states of the planner that every accepted step lowers.

use crate::config::ConfigView;
use crate::plan::Event;
use crate::plan::Phase;
use crate::plan::PlannerView;
use crate::plan::REPLICAS;
use crate::run::lemma_run_keeps_wf;
use crate::run::run;
use crate::run::trace;
use vstd::prelude::*;

verus! {

/// Commands that follow the root arm: the copies, the extrusion, the boss
/// and the socket.
pub open spec fn tail_cost() -> nat {
    (REPLICAS + 3) as nat
}

/// Commands that place a finished child and join it to its parent.
pub open spec fn join_cost() -> nat {
    3
}

/// The most commands that an arm beginning at `depth` can take by itself:
/// one for an arm without children, and for each child that it may have, the
/// command that draws the child and what the child takes.
pub open spec fn own_cost(config: ConfigView, depth: nat) -> nat
    decreases config.max_depth - depth,
{
    if depth >= config.max_depth {
        1
    } else {
        1 + (config.max_children as nat) * (1 + own_cost(config, depth + 1) + join_cost())
    }
}

/// The most commands that a child beginning at `depth` can take, with those
/// that join it to its parent.
pub open spec fn arm_cost(config: ConfigView, depth: nat) -> nat {
    own_cost(config, depth) + join_cost()
}

/// The most commands that the open arms can still take: for each of them
/// its children that are still to be drawn, and for each but the root the
/// commands that join it to its parent.
pub open spec fn open_cost(config: ConfigView, open: Seq<usize>) -> nat
    decreases open.len(),
{
    if open.len() == 0 {
        0
    } else {
        open_cost(config, open.drop_last()) + (open.last() as nat) * (1 + arm_cost(
            config,
            open.len(),
        )) + (if open.len() > 1 {
            join_cost()
        } else {
            0
        })
    }
}

/// The most commands that the plan of any snowflake of this configuration
/// holds: those of the largest root arm, and the tail.
pub open spec fn budget(config: ConfigView) -> nat {
    if config.root_is_short() {
        1 + tail_cost()
    } else {
        own_cost(config, 0) + tail_cost()
    }
}

/// An upper bound on the commands that a planner in this state can still
/// emit.
pub open spec fn fuel(state: PlannerView) -> nat {
    let config = state.config;
    let depth = state.open.len();
    let around = open_cost(config, state.open) + tail_cost();
    match state.phase {
        Phase::Start => budget(config),
        Phase::Counting => (config.max_children as nat) * (1 + arm_cost(config, depth + 1)) + (
        if depth > 0 {
            join_cost()
        } else {
            0
        }) + around,
        Phase::Branching => around,
        Phase::Measuring => arm_cost(config, depth) + around,
        Phase::Returned => 3 + around,
        Phase::Placed => 2 + around,
        Phase::Joined => 1 + around,
        Phase::Replicating { made } => (REPLICAS - made + 3) as nat,
        Phase::Extruded => 2,
        Phase::Mounted => 1,
        Phase::Done => 0,
    }
}

/// A product grows with its first factor.
proof fn lemma_product_grows(few: nat, many: nat, each: nat)
    requires
        few <= many,
    ensures
        few * each <= many * each,
{
    assert(few * each <= many * each) by (nonlinear_arith)
        requires
            few <= many,
    ;
}

/// One factor less, and one summand more.
proof fn lemma_one_less(count: nat, each: nat)
    requires
        count > 0,
    ensures
        (count - 1) * each + each == count * each,
{
    assert((count - 1) * each + each == count * each) by (nonlinear_arith);
}

/// The cost of the open arms with one more arm inside them.
proof fn lemma_open_cost_push(config: ConfigView, open: Seq<usize>, left: usize)
    ensures
        open_cost(config, open.push(left)) == open_cost(config, open) + (left as nat) * (1
            + arm_cost(config, open.len() + 1)) + (if open.len() > 0 {
            join_cost()
        } else {
            0
        }),
{
    let longer = open.push(left);
    assert(longer.drop_last() =~= open);
    assert(longer.last() == left);
}

/// An accepted step lowers the fuel.
pub proof fn lemma_step_burns_fuel(state: PlannerView, event: Event)
    requires
        state.wf(),
        state.step(event).1 is Ok,
    ensures
        fuel(state.step(event).0) < fuel(state),
{
    let config = state.config;
    let depth: nat = state.open.len();
    let after = state.step(event).0;
    match state.phase {
        Phase::Start => {
            assert(own_cost(config, 0) >= 1);
        },
        Phase::Counting => {
            let count = event->ChildCount_0;
            let each = 1 + arm_cost(config, depth + 1);
            let counted = state.open.push(count);
            lemma_open_cost_push(config, state.open, count);
            lemma_product_grows(count as nat, config.max_children as nat, each);
            assert(counted.drop_last() =~= state.open);
            if count > 0 {
                lemma_open_cost_push(config, state.open, (count - 1) as usize);
                lemma_one_less(count as nat, each);
                assert(after.open == state.open.push((count - 1) as usize));
                assert(after.phase == Phase::Measuring);
                assert(after.open.len() == depth + 1);
            } else {
                assert(after.open == state.open);
            }
        },
        Phase::Branching => {
            let left = state.open.last();
            let inner = state.open.drop_last();
            let each = 1 + arm_cost(config, depth);
            assert(open_cost(config, state.open) == open_cost(config, inner) + left * each + (
            if depth > 1 {
                join_cost()
            } else {
                0
            }));
            if left > 0 {
                lemma_open_cost_push(config, inner, (left - 1) as usize);
                lemma_one_less(left as nat, each);
                assert(after.open == inner.push((left - 1) as usize));
                assert(inner.len() + 1 == depth);
            } else {
                assert(left * each == 0) by (nonlinear_arith)
                    requires
                        left == 0,
                ;
                assert(after.open == inner);
            }
        },
        Phase::Measuring => {
            assert(own_cost(config, depth) >= 1);
        },
        _ => {},
    }
}

/// What a run has emitted and what it can still emit stay within what the
/// state it began in could emit.
pub proof fn lemma_run_burns_fuel(state: PlannerView, events: Seq<Event>)
    requires
        state.wf(),
    ensures
        trace(state, events).len() + fuel(run(state, events)) <= fuel(state),
    decreases events.len(),
{
    if events.len() > 0 {
        let before = run(state, events.drop_last());
        lemma_run_burns_fuel(state, events.drop_last());
        lemma_run_keeps_wf(state, events.drop_last());
        if before.step(events.last()).1 is Ok {
            lemma_step_burns_fuel(before, events.last());
        }
    }
}

/// Generation terminates: whatever is drawn, no plan holds more commands
/// than the budget of its configuration, and a planner that has emitted so
/// many accepts no further event.
pub proof fn lemma_plan_ends(config: ConfigView, events: Seq<Event>)
    ensures
        trace(PlannerView::initial(config), events).len() <= budget(config),
        trace(PlannerView::initial(config), events).len() == budget(config) ==> run(
            PlannerView::initial(config),
            events,
        ).phase is Done,
{
    lemma_run_burns_fuel(PlannerView::initial(config), events);
    lemma_run_keeps_wf(PlannerView::initial(config), events);
    let end = run(PlannerView::initial(config), events);
    if fuel(end) == 0 {
        assert(own_cost(config, 0) >= 1);
    }
}

} // verus!

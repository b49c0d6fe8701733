//! Every tree that the configuration allows is planned.
//!
//! The construction of a tree describes what a complete plan can be. This
//! module shows that it describes no more: for every tree that respects the
//! configuration there are events on which the planner emits the plan of
//! that tree and nothing else.

use crate::config::ConfigView;
use crate::construction::arm_commands;
use crate::construction::children_commands;
use crate::construction::fits;
use crate::construction::plan_commands;
use crate::construction::tail_commands;
use crate::construction::Tree;
use crate::plan::Command;
use crate::plan::Event;
use crate::plan::Phase;
use crate::plan::PlannerView;
use crate::plan::REPLICAS;
use crate::run::run;
use crate::run::trace;
use crate::termination::budget;
use crate::termination::join_cost;
use crate::termination::own_cost;
use vstd::prelude::*;

verus! {

/// The events on which the arm `tree` is built: from the verdict on its
/// length, which the root arm does not await, to the step that places it.
pub open spec fn arm_events(tree: Tree, root: bool) -> Seq<Event>
    decreases tree, 0nat,
{
    match tree {
        Tree::Leaf => seq![
            if root {
                Event::Proceed
            } else {
                Event::ChildLength { short: true }
            },
            Event::Proceed,
        ],
        Tree::Arm { children } => seq![
            if root {
                Event::Proceed
            } else {
                Event::ChildLength { short: false }
            },
        ] + children_events(children, children.len()) + seq![
            if children.len() == 0 {
                Event::ChildCount(0)
            } else {
                Event::Proceed
            },
        ],
    }
}

/// The events on which the first children of an arm with `total` children
/// are built and joined. The first of them is the count itself.
pub open spec fn children_events(children: Seq<Tree>, total: nat) -> Seq<Event>
    decreases children, 1nat,
{
    if children.len() == 0 {
        Seq::empty()
    } else {
        children_events(children.drop_last(), total) + seq![
            if children.len() == 1 {
                Event::ChildCount(total as usize)
            } else {
                Event::Proceed
            },
        ] + arm_events(children.last(), false) + seq![Event::Proceed, Event::Proceed]
    }
}

/// The events on which the whole plan of `tree` is emitted.
pub open spec fn plan_events(tree: Tree) -> Seq<Event> {
    arm_events(tree, true) + Seq::new((REPLICAS + 2) as nat, |i: int| Event::Proceed)
}

/// A run on two sequences of events is the run on the first, continued on
/// the second.
pub proof fn lemma_run_add(state: PlannerView, first: Seq<Event>, second: Seq<Event>)
    ensures
        run(state, first + second) == run(run(state, first), second),
        trace(state, first + second) == trace(state, first) + trace(run(state, first), second),
    decreases second.len(),
{
    if second.len() == 0 {
        assert(first + second =~= first);
        assert(trace(state, first) + trace(run(state, first), second) =~= trace(state, first));
    } else {
        lemma_run_add(state, first, second.drop_last());
        assert((first + second).drop_last() =~= first + second.drop_last());
        assert((first + second).last() == second.last());
        let before = run(run(state, first), second.drop_last());
        match before.step(second.last()).1 {
            Ok(command) => {
                assert(trace(state, first + second) =~= trace(state, first) + trace(
                    run(state, first),
                    second,
                ));
            },
            Err(_) => {},
        }
    }
}

/// A run on one accepted event is one step.
proof fn lemma_run_one(state: PlannerView, event: Event)
    requires
        state.step(event).1 is Ok,
    ensures
        run(state, seq![event]) == state.step(event).0,
        trace(state, seq![event]) == seq![state.step(event).1->Ok_0],
{
    let one = seq![event];
    assert(one.drop_last() =~= Seq::<Event>::empty());
    assert(one.last() == event);
    assert(run(state, one.drop_last()) == state);
    assert(trace(state, one.drop_last()) =~= Seq::<Command>::empty());
    assert(trace(state, one) =~= seq![state.step(event).1->Ok_0]);
}

/// What closes an arm: the placement of a child, or the first copy of the
/// silhouette after the root arm.
spec fn closing(root: bool) -> Command {
    if root {
        Command::Replicate { index: 0, count: REPLICAS }
    } else {
        Command::Place
    }
}

/// Where the planner stands once an arm is closed.
spec fn closed_phase(root: bool) -> Phase {
    if root {
        Phase::Replicating { made: 1 }
    } else {
        Phase::Placed
    }
}

/// From where an arm begins, its events build it and place it, and leave
/// the arms around it as they were.
proof fn lemma_arm_is_built(state: PlannerView, tree: Tree, root: bool)
    requires
        state.wf(),
        fits(state.config, state.open.len(), tree),
        root ==> state.phase is Start && (tree is Leaf <==> state.config.max_depth == 0
            || state.config.root_is_short()),
        !root ==> state.phase is Measuring,
    ensures
        run(state, arm_events(tree, root)) == state.at(closed_phase(root)),
        trace(state, arm_events(tree, root)) == arm_commands(
            state.config,
            state.open.len(),
            tree,
        ).push(closing(root)),
    decreases tree, 0nat,
{
    let config = state.config;
    let depth = state.open.len();
    match tree {
        Tree::Leaf => {
            let first = arm_events(tree, root)[0];
            let after = state.step(first).0;
            lemma_run_one(state, first);
            lemma_run_one(after, Event::Proceed);
            lemma_run_add(state, seq![first], seq![Event::Proceed]);
            assert(arm_events(tree, root) =~= seq![first] + seq![Event::Proceed]);
            assert(trace(state, arm_events(tree, root)) =~= arm_commands(config, depth, tree).push(
                closing(root),
            ));
        },
        Tree::Arm { children } => {
            let first = arm_events(tree, root)[0];
            let kids = children_events(children, children.len());
            let last = arm_events(tree, root).last();
            let counting = state.step(first).0;
            lemma_run_one(state, first);
            assert(counting == state.at(Phase::Counting));
            lemma_children_are_built(counting, children, children.len());
            let branching = run(counting, kids);
            lemma_run_one(branching, last);
            assert(arm_events(tree, root) =~= seq![first] + kids + seq![last]);
            lemma_run_add(state, seq![first], kids);
            lemma_run_add(state, seq![first] + kids, seq![last]);
            assert(state.open.push(0usize).drop_last() =~= state.open);
            assert(branching.step(last).0 == state.at(closed_phase(root)));
            assert(trace(state, arm_events(tree, root)) =~= arm_commands(config, depth, tree).push(
                closing(root),
            ));
        },
    }
}

/// One child is drawn, built, placed and joined twice.
proof fn lemma_child_is_built(
    before: PlannerView,
    draw: Event,
    child: Tree,
    measuring: PlannerView,
)
    requires
        before.wf(),
        before.step(draw).0 == measuring,
        before.step(draw).1 == Ok::<Command, crate::plan::StepError>(Command::Child),
        measuring.phase is Measuring,
        fits(measuring.config, measuring.open.len(), child),
    ensures
        run(before, seq![draw] + arm_events(child, false) + seq![Event::Proceed, Event::Proceed])
            == measuring.at(Phase::Branching),
        trace(before, seq![draw] + arm_events(child, false) + seq![Event::Proceed, Event::Proceed])
            == seq![Command::Child] + arm_commands(
            measuring.config,
            measuring.open.len(),
            child,
        ) + seq![Command::Place, Command::Join, Command::JoinMirrored],
    decreases child, 1nat,
{
    let events = arm_events(child, false);
    let joins = seq![Event::Proceed, Event::Proceed];
    let placed = measuring.at(Phase::Placed);
    let joined = measuring.at(Phase::Joined);
    crate::plan::lemma_step_keeps_wf(before, draw);
    lemma_run_one(before, draw);
    lemma_arm_is_built(measuring, child, false);
    assert(run(placed, joins) == measuring.at(Phase::Branching) && trace(placed, joins) == seq![
        Command::Join,
        Command::JoinMirrored,
    ]) by {
        lemma_run_one(placed, Event::Proceed);
        lemma_run_one(joined, Event::Proceed);
        lemma_run_add(placed, seq![Event::Proceed], seq![Event::Proceed]);
        assert(joins =~= seq![Event::Proceed] + seq![Event::Proceed]);
        assert(seq![Command::Join] + seq![Command::JoinMirrored] =~= seq![
            Command::Join,
            Command::JoinMirrored,
        ]);
    }
    lemma_run_add(before, seq![draw], events);
    lemma_run_add(before, seq![draw] + events, joins);
    assert(trace(before, seq![draw] + events + joins) =~= seq![Command::Child] + arm_commands(
        measuring.config,
        measuring.open.len(),
        child,
    ) + seq![Command::Place, Command::Join, Command::JoinMirrored]);
}

/// From where an arm waits for its count, the events of its first children
/// build and join them, and leave the arm with the rest of its children to
/// draw.
proof fn lemma_children_are_built(state: PlannerView, children: Seq<Tree>, total: nat)
    requires
        state.wf(),
        state.phase is Counting,
        children.len() <= total <= state.config.max_children,
        forall|i: int|
            0 <= i < children.len() ==> fits(
                state.config,
                state.open.len() + 1,
                #[trigger] children[i],
            ),
    ensures
        run(state, children_events(children, total)) == if children.len() == 0 {
            state
        } else {
            PlannerView {
                open: state.open.push((total - children.len()) as usize),
                phase: Phase::Branching,
                ..state
            }
        },
        trace(state, children_events(children, total)) == children_commands(
            state.config,
            state.open.len(),
            children,
        ),
    decreases children, 1nat,
{
    let config = state.config;
    let depth = state.open.len();
    if children.len() > 0 {
        let before = children_events(children.drop_last(), total);
        let draw = if children.len() == 1 {
            Event::ChildCount(total as usize)
        } else {
            Event::Proceed
        };
        let unit = seq![draw] + arm_events(children.last(), false) + seq![
            Event::Proceed,
            Event::Proceed,
        ];
        lemma_children_are_built(state, children.drop_last(), total);
        crate::run::lemma_run_keeps_wf(state, before);
        let branching = run(state, before);
        let left = (total - children.len()) as usize;
        let measuring = PlannerView {
            open: state.open.push(left),
            phase: Phase::Measuring,
            ..state
        };
        assert(branching.step(draw).0 == measuring && branching.step(draw).1 == Ok::<
            Command,
            crate::plan::StepError,
        >(Command::Child)) by {
            if children.len() == 1 {
                assert(state.open.push(total as usize).drop_last() =~= state.open);
            } else {
                assert(state.open.push((left + 1) as usize).drop_last() =~= state.open);
            }
        }
        assert(fits(config, measuring.open.len(), children.last()));
        lemma_child_is_built(branching, draw, children.last(), measuring);
        assert(children_events(children, total) =~= before + unit);
        lemma_run_add(state, before, unit);
        assert(trace(state, children_events(children, total)) =~= children_commands(
            config,
            depth,
            children,
        ));
    }
}

/// The description of a plan is exact: every tree that respects the
/// configuration is the tree of a complete plan.
///
/// For a tree whose root is a leaf exactly where the ceiling is zero or the
/// root arm falls under the cutoff, the planner that is fed the events of
/// the tree emits its plan, and is done.
pub proof fn lemma_every_tree_is_planned(config: ConfigView, tree: Tree)
    requires
        fits(config, 0, tree),
        tree is Leaf <==> config.max_depth == 0 || config.root_is_short(),
    ensures
        run(PlannerView::initial(config), plan_events(tree)).phase is Done,
        trace(PlannerView::initial(config), plan_events(tree)) == plan_commands(config, tree),
{
    let start = PlannerView::initial(config);
    lemma_arm_is_built(start, tree, true);
    let rest = Seq::new((REPLICAS + 2) as nat, |i: int| Event::Proceed);
    lemma_run_add(start, arm_events(tree, true), rest);
    let closed = start.at(Phase::Replicating { made: 1 });
    lemma_tail_is_emitted(closed, rest);
}

/// After the first copy, eight steps emit the other copies and the solid.
proof fn lemma_tail_is_emitted(state: PlannerView, rest: Seq<Event>)
    requires
        state.phase == (Phase::Replicating { made: 1 }),
        rest == Seq::new((REPLICAS + 2) as nat, |i: int| Event::Proceed),
    ensures
        run(state, rest).phase is Done,
        seq![Command::Replicate { index: 0, count: REPLICAS }] + trace(state, rest)
            == tail_commands(),
{
    let go = Event::Proceed;
    let s1 = state;
    let s2 = s1.step(go).0;
    let s3 = s2.step(go).0;
    let s4 = s3.step(go).0;
    let s5 = s4.step(go).0;
    let s6 = s5.step(go).0;
    let s7 = s6.step(go).0;
    let s8 = s7.step(go).0;
    let r0 = rest.subrange(0, 0);
    let r1 = rest.subrange(0, 1);
    let r2 = rest.subrange(0, 2);
    let r3 = rest.subrange(0, 3);
    let r4 = rest.subrange(0, 4);
    let r5 = rest.subrange(0, 5);
    let r6 = rest.subrange(0, 6);
    let r7 = rest.subrange(0, 7);
    assert(rest.drop_last() =~= r7);
    assert(r7.drop_last() =~= r6);
    assert(r6.drop_last() =~= r5);
    assert(r5.drop_last() =~= r4);
    assert(r4.drop_last() =~= r3);
    assert(r3.drop_last() =~= r2);
    assert(r2.drop_last() =~= r1);
    assert(r1.drop_last() =~= r0);
    assert(run(s1, r0) == s1);
    assert(trace(s1, r0) =~= Seq::<Command>::empty());
    assert(run(s1, r1) == s2);
    assert(run(s1, r2) == s3);
    assert(run(s1, r3) == s4);
    assert(run(s1, r4) == s5);
    assert(run(s1, r5) == s6);
    assert(run(s1, r6) == s7);
    assert(run(s1, r7) == s8);
    assert(trace(s1, r1).len() == 1);
    assert(trace(s1, r2).len() == 2);
    assert(trace(s1, r3).len() == 3);
    assert(trace(s1, r4).len() == 4);
    assert(trace(s1, r5).len() == 5);
    assert(trace(s1, r6).len() == 6);
    assert(trace(s1, r7).len() == 7);
    assert(seq![Command::Replicate { index: 0, count: REPLICAS }] + trace(state, rest)
        =~= tail_commands());
}

/// `count` children that are all alike.
pub open spec fn alike(tree: Tree, count: nat) -> Seq<Tree> {
    Seq::new(count, |i: int| tree)
}

/// The largest arm that can begin at `depth`: it has as many children as an
/// arm can have, each of them the largest in its turn, down to the ceiling.
pub open spec fn largest_arm(config: ConfigView, depth: nat) -> Tree
    decreases config.max_depth - depth,
{
    if depth >= config.max_depth {
        Tree::Leaf
    } else {
        Tree::Arm {
            children: alike(largest_arm(config, depth + 1), config.max_children as nat),
        }
    }
}

/// The largest snowflake of a configuration.
pub open spec fn largest_tree(config: ConfigView) -> Tree {
    if config.root_is_short() {
        Tree::Leaf
    } else {
        largest_arm(config, 0)
    }
}

/// Children that are alike take alike.
proof fn lemma_alike_children_cost(config: ConfigView, depth: nat, tree: Tree, count: nat)
    ensures
        children_commands(config, depth, alike(tree, count)).len() == count * (1 + arm_commands(
            config,
            depth + 1,
            tree,
        ).len() + join_cost()),
    decreases count,
{
    let each = 1 + arm_commands(config, depth + 1, tree).len() + join_cost();
    if count == 0 {
        assert(count * each == 0) by (nonlinear_arith)
            requires
                count == 0,
        ;
    } else {
        let fewer = (count - 1) as nat;
        lemma_alike_children_cost(config, depth, tree, fewer);
        assert(alike(tree, count).drop_last() =~= alike(tree, fewer));
        assert(alike(tree, count).last() == tree);
        assert(count * each == fewer * each + each) by (nonlinear_arith)
            requires
                count == fewer + 1,
        ;
    }
}

/// The largest arm respects the configuration and takes what an arm can
/// take at most.
proof fn lemma_largest_arm(config: ConfigView, depth: nat)
    requires
        depth <= config.max_depth,
    ensures
        fits(config, depth, largest_arm(config, depth)),
        arm_commands(config, depth, largest_arm(config, depth)).len() == own_cost(config, depth),
        largest_arm(config, depth) is Leaf <==> depth == config.max_depth,
    decreases config.max_depth - depth,
{
    if depth < config.max_depth {
        let child = largest_arm(config, depth + 1);
        lemma_largest_arm(config, depth + 1);
        lemma_alike_children_cost(config, depth, child, config.max_children as nat);
    }
}

/// The budget is exact: the plan of the largest snowflake spends it to the
/// last command.
pub proof fn lemma_budget_is_spent(config: ConfigView)
    ensures
        run(PlannerView::initial(config), plan_events(largest_tree(config))).phase is Done,
        trace(PlannerView::initial(config), plan_events(largest_tree(config))).len() == budget(
            config,
        ),
{
    let tree = largest_tree(config);
    lemma_largest_arm(config, 0);
    lemma_every_tree_is_planned(config, tree);
    assert(tail_commands().len() == REPLICAS + 3);
}

} // verus!

//! What holds of every complete plan.

use crate::config::ConfigView;
use crate::construction::arm_commands;
use crate::construction::children_commands;
use crate::construction::descendants;
use crate::construction::lemma_arm_joins_each_child_twice;
use crate::construction::lemma_arms_hold_no_tail;
use crate::construction::lemma_tail_holds_no_union;
use crate::construction::lemma_unions_add_up;
use crate::construction::occurrences;
use crate::construction::plan_commands;
use crate::construction::tail_commands;
use crate::construction::Tree;
use crate::follows::lemma_complete_plan_is_a_tree;
use crate::plan::Command;
use crate::plan::Event;
use crate::plan::PlannerView;
use crate::plan::REPLICAS;
use crate::run::run;
use crate::run::trace;
use crate::solid::boss_model;
use crate::solid::extrusion_model;
use crate::solid::magnet_model;
use vstd::prelude::*;

verus! {

/// The silhouette is replicated six times, whatever the configuration.
///
/// In every complete plan the copies are the six commands that follow the
/// root arm, with the indices zero to five in order, and no copy is made
/// anywhere else.
pub proof fn lemma_six_copies(config: ConfigView, events: Seq<Event>, at: int)
    requires
        run(PlannerView::initial(config), events).phase is Done,
        0 <= at < trace(PlannerView::initial(config), events).len(),
    ensures
        ({
            let plan = trace(PlannerView::initial(config), events);
            let tail = plan.len() - REPLICAS - 3;
            &&& tail >= 1
            &&& plan[at] is Replicate <==> tail <= at < tail + REPLICAS
            &&& plan[at] is Replicate ==> plan[at] == Command::Replicate {
                index: (at - tail) as usize,
                count: REPLICAS,
            }
        }),
{
    let tree = lemma_complete_plan_is_a_tree(config, events);
    let arms = arm_commands(config, 0, tree);
    assert(arms.len() >= 1);
    if at < arms.len() {
        lemma_arms_hold_no_tail(config, 0, tree, at);
    }
}

/// The socket is cut last, after the boss is fused.
///
/// Every complete plan ends with the extrusion, the boss and the socket, in
/// this order, and holds none of the three anywhere else: the boss is fused
/// before the socket is cut, and no command follows the cut.
pub proof fn lemma_socket_is_cut_last(config: ConfigView, events: Seq<Event>, at: int)
    requires
        run(PlannerView::initial(config), events).phase is Done,
        0 <= at < trace(PlannerView::initial(config), events).len(),
    ensures
        ({
            let plan = trace(PlannerView::initial(config), events);
            let end = plan.len();
            &&& end >= 4 + REPLICAS
            &&& plan[end - 3] == Command::Extrude { slab: extrusion_model() }
            &&& plan[end - 2] == Command::Mount { foot: boss_model() }
            &&& plan[end - 1] == Command::Socket { magnet: magnet_model() }
            &&& plan[at] is Extrude <==> at == end - 3
            &&& plan[at] is Mount <==> at == end - 2
            &&& plan[at] is Socket <==> at == end - 1
        }),
{
    let tree = lemma_complete_plan_is_a_tree(config, events);
    let arms = arm_commands(config, 0, tree);
    assert(arms.len() >= 1);
    if at < arms.len() {
        lemma_arms_hold_no_tail(config, 0, tree, at);
    }
}

/// Without children every snowflake is a single arm.
///
/// Where the configuration allows an arm no child, every complete plan
/// builds the root arm alone, by one command, and goes on to the tail.
pub proof fn lemma_childless_plan_is_one_arm(config: ConfigView, events: Seq<Event>)
    requires
        config.max_children == 0,
        run(PlannerView::initial(config), events).phase is Done,
    ensures
        trace(PlannerView::initial(config), events) == seq![
            if config.max_depth == 0 || config.root_is_short() {
                Command::Empty
            } else {
                Command::Arm { depth: 0, taper: config.depth_scale(0) }
            },
        ] + tail_commands(),
{
    let tree = lemma_complete_plan_is_a_tree(config, events);
    match tree {
        Tree::Leaf => {},
        Tree::Arm { children } => {
            assert(children_commands(config, 0, children) =~= Seq::<Command>::empty());
            assert(arm_commands(config, 0, tree) =~= seq![
                Command::Arm { depth: 0, taper: config.depth_scale(0) },
            ]);
        },
    }
}

/// Every child contributes two unions, itself and its mirror image.
///
/// A complete plan holds as many `Child` commands as its tree has children,
/// and as many of each of `Place`, `Join` and `JoinMirrored`.
pub proof fn lemma_every_child_is_joined_twice(config: ConfigView, events: Seq<Event>) -> (tree:
    Tree)
    requires
        run(PlannerView::initial(config), events).phase is Done,
    ensures
        trace(PlannerView::initial(config), events) == plan_commands(config, tree),
        ({
            let plan = trace(PlannerView::initial(config), events);
            &&& occurrences(plan, Command::Child) == descendants(tree)
            &&& occurrences(plan, Command::Place) == descendants(tree)
            &&& occurrences(plan, Command::Join) == descendants(tree)
            &&& occurrences(plan, Command::JoinMirrored) == descendants(tree)
        }),
{
    let tree = lemma_complete_plan_is_a_tree(config, events);
    let arms = arm_commands(config, 0, tree);
    lemma_arm_joins_each_child_twice(config, 0, tree);
    lemma_unions_add_up(arms, tail_commands());
    lemma_tail_holds_no_union();
    tree
}

} // verus!

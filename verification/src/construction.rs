//! The plan of a snowflake, described from the outside in.
//!
//! Whatever the draws give, the arms of a snowflake form a tree, and the
//! commands of a complete plan are that tree written down: an arm, then each
//! of its children between the command that draws it and the three that
//! place and join it, and after the root arm the copies and the solid. This
//! module states that description and what follows from it alone.

use crate::config::ConfigView;
use crate::plan::Command;
use crate::plan::REPLICAS;
use crate::solid::boss_model;
use crate::solid::extrusion_model;
use crate::solid::magnet_model;
use vstd::prelude::*;

verus! {

/// The arms of one snowflake, as they were drawn.
pub enum Tree {
    /// An arm that is not drawn: it begins at the ceiling, or it falls under
    /// the cutoff.
    Leaf,
    /// An arm that is drawn, with its children in the order of their draws.
    Arm { children: Seq<Tree> },
}

/// Whether a tree that begins at `depth` respects the configuration: its
/// arms are drawn above the ceiling only, and none has more children than
/// the maximum.
pub open spec fn fits(config: ConfigView, depth: nat, tree: Tree) -> bool
    decreases tree,
{
    match tree {
        Tree::Leaf => true,
        Tree::Arm { children } => {
            &&& depth < config.max_depth
            &&& children.len() <= config.max_children
            &&& forall|i: int|
                0 <= i < children.len() ==> fits(config, depth + 1, #[trigger] children[i])
        },
    }
}

/// The commands that build the arm `tree` at `depth`.
pub open spec fn arm_commands(config: ConfigView, depth: nat, tree: Tree) -> Seq<Command>
    decreases tree, 0nat,
{
    match tree {
        Tree::Leaf => seq![Command::Empty],
        Tree::Arm { children } => seq![
            Command::Arm { depth: depth as usize, taper: config.depth_scale(depth as usize) },
        ] + children_commands(config, depth, children),
    }
}

/// The commands that build the children of an arm at `depth` and union each
/// of them into it, once as it is and once mirrored.
pub open spec fn children_commands(config: ConfigView, depth: nat, children: Seq<Tree>) -> Seq<
    Command,
>
    decreases children, 1nat,
{
    if children.len() == 0 {
        Seq::empty()
    } else {
        children_commands(config, depth, children.drop_last()) + seq![Command::Child]
            + arm_commands(config, depth + 1, children.last()) + seq![
            Command::Place,
            Command::Join,
            Command::JoinMirrored,
        ]
    }
}

/// The first `made` copies of the silhouette.
pub open spec fn copies(made: nat) -> Seq<Command> {
    Seq::new(made, |index: int| Command::Replicate { index: index as usize, count: REPLICAS })
}

/// What follows the root arm in every plan: six copies of the silhouette,
/// the extrusion, the boss, and last the socket.
pub open spec fn tail_commands() -> Seq<Command> {
    copies(REPLICAS as nat) + seq![
        Command::Extrude { slab: extrusion_model() },
        Command::Mount { foot: boss_model() },
        Command::Socket { magnet: magnet_model() },
    ]
}

/// The complete plan of the snowflake whose arms are `tree`.
pub open spec fn plan_commands(config: ConfigView, tree: Tree) -> Seq<Command> {
    arm_commands(config, 0, tree) + tail_commands()
}

/// How often `command` occurs in `plan`.
pub open spec fn occurrences(plan: Seq<Command>, command: Command) -> nat
    decreases plan.len(),
{
    if plan.len() == 0 {
        0
    } else {
        occurrences(plan.drop_last(), command) + if plan.last() == command {
            1nat
        } else {
            0nat
        }
    }
}

/// The children of a tree: its arms and leaves without the root.
pub open spec fn descendants(tree: Tree) -> nat
    decreases tree, 0nat,
{
    match tree {
        Tree::Leaf => 0,
        Tree::Arm { children } => descendants_of(children),
    }
}

/// The trees in `children`, with the children of each.
pub open spec fn descendants_of(children: Seq<Tree>) -> nat
    decreases children, 1nat,
{
    if children.len() == 0 {
        0
    } else {
        descendants_of(children.drop_last()) + 1 + descendants(children.last())
    }
}

/// The copies, one after the other.
pub(crate) proof fn lemma_copies_push(made: nat)
    ensures
        copies(made + 1) == copies(made).push(
            Command::Replicate { index: made as usize, count: REPLICAS },
        ),
        copies(0) == Seq::<Command>::empty(),
{
    assert(copies(made + 1) =~= copies(made).push(
        Command::Replicate { index: made as usize, count: REPLICAS },
    ));
    assert(copies(0) =~= Seq::<Command>::empty());
}

/// The construction of an arm holds the six commands that build arms, and no
/// other: nothing of the tail occurs inside it.
pub proof fn lemma_arms_hold_no_tail(config: ConfigView, depth: nat, tree: Tree, at: int)
    requires
        0 <= at < arm_commands(config, depth, tree).len(),
    ensures
        !(arm_commands(config, depth, tree)[at] is Replicate),
        !(arm_commands(config, depth, tree)[at] is Extrude),
        !(arm_commands(config, depth, tree)[at] is Mount),
        !(arm_commands(config, depth, tree)[at] is Socket),
    decreases tree, 0nat,
{
    match tree {
        Tree::Leaf => {},
        Tree::Arm { children } => {
            if at > 0 {
                lemma_children_hold_no_tail(config, depth, children, at - 1);
            }
        },
    }
}

/// The same of the construction of the children of an arm.
proof fn lemma_children_hold_no_tail(
    config: ConfigView,
    depth: nat,
    children: Seq<Tree>,
    at: int,
)
    requires
        0 <= at < children_commands(config, depth, children).len(),
    ensures
        !(children_commands(config, depth, children)[at] is Replicate),
        !(children_commands(config, depth, children)[at] is Extrude),
        !(children_commands(config, depth, children)[at] is Mount),
        !(children_commands(config, depth, children)[at] is Socket),
    decreases children, 1nat,
{
    if children.len() > 0 {
        let before = children_commands(config, depth, children.drop_last());
        let child = arm_commands(config, depth + 1, children.last());
        if at < before.len() {
            lemma_children_hold_no_tail(config, depth, children.drop_last(), at);
        } else if before.len() < at <= before.len() + child.len() {
            lemma_arms_hold_no_tail(config, depth + 1, children.last(), at - before.len() - 1);
        }
    }
}

/// Occurrences in two sequences of commands add up.
proof fn lemma_occurrences_add(front: Seq<Command>, back: Seq<Command>, command: Command)
    ensures
        occurrences(front + back, command) == occurrences(front, command) + occurrences(
            back,
            command,
        ),
    decreases back.len(),
{
    if back.len() == 0 {
        assert(front + back =~= front);
    } else {
        lemma_occurrences_add(front, back.drop_last(), command);
        assert((front + back).drop_last() =~= front + back.drop_last());
        assert((front + back).last() == back.last());
    }
}

/// Occurrences in no command and in one.
proof fn lemma_occurrences_few(command: Command)
    ensures
        occurrences(Seq::empty(), command) == 0,
        forall|only: Command| #[trigger]
            occurrences(seq![only], command) == if only == command {
                1nat
            } else {
                0nat
            },
{
    assert forall|only: Command| #[trigger]
        occurrences(seq![only], command) == if only == command {
            1nat
        } else {
            0nat
        } by {
        assert(seq![only].drop_last() =~= Seq::<Command>::empty());
        assert(seq![only].last() == only);
        assert(occurrences(Seq::<Command>::empty(), command) == 0);
        assert(occurrences(seq![only].drop_last(), command) == 0);
    }
}

/// A command that stands nowhere in a plan occurs in it no times.
proof fn lemma_none_occurs(plan: Seq<Command>, command: Command)
    requires
        forall|at: int| 0 <= at < plan.len() ==> plan[at] != command,
    ensures
        occurrences(plan, command) == 0,
    decreases plan.len(),
{
    if plan.len() > 0 {
        lemma_none_occurs(plan.drop_last(), command);
    }
}

/// The unions of two sequences of commands add up.
pub(crate) proof fn lemma_unions_add_up(front: Seq<Command>, back: Seq<Command>)
    ensures
        occurrences(front + back, Command::Child) == occurrences(front, Command::Child)
            + occurrences(back, Command::Child),
        occurrences(front + back, Command::Place) == occurrences(front, Command::Place)
            + occurrences(back, Command::Place),
        occurrences(front + back, Command::Join) == occurrences(front, Command::Join)
            + occurrences(back, Command::Join),
        occurrences(front + back, Command::JoinMirrored) == occurrences(
            front,
            Command::JoinMirrored,
        ) + occurrences(back, Command::JoinMirrored),
{
    lemma_occurrences_add(front, back, Command::Child);
    lemma_occurrences_add(front, back, Command::Place);
    lemma_occurrences_add(front, back, Command::Join);
    lemma_occurrences_add(front, back, Command::JoinMirrored);
}

/// The tail joins no child.
pub(crate) proof fn lemma_tail_holds_no_union()
    ensures
        occurrences(tail_commands(), Command::Child) == 0,
        occurrences(tail_commands(), Command::Place) == 0,
        occurrences(tail_commands(), Command::Join) == 0,
        occurrences(tail_commands(), Command::JoinMirrored) == 0,
{
    lemma_none_occurs(tail_commands(), Command::Child);
    lemma_none_occurs(tail_commands(), Command::Place);
    lemma_none_occurs(tail_commands(), Command::Join);
    lemma_none_occurs(tail_commands(), Command::JoinMirrored);
}

/// In the construction of an arm, each of `Child`, `Place`, `Join` and
/// `JoinMirrored` occurs once for every child in the tree.
pub proof fn lemma_arm_joins_each_child_twice(config: ConfigView, depth: nat, tree: Tree)
    ensures
        occurrences(arm_commands(config, depth, tree), Command::Child) == descendants(tree),
        occurrences(arm_commands(config, depth, tree), Command::Place) == descendants(tree),
        occurrences(arm_commands(config, depth, tree), Command::Join) == descendants(tree),
        occurrences(arm_commands(config, depth, tree), Command::JoinMirrored) == descendants(
            tree,
        ),
    decreases tree, 0nat,
{
    lemma_occurrences_few(Command::Child);
    lemma_occurrences_few(Command::Place);
    lemma_occurrences_few(Command::Join);
    lemma_occurrences_few(Command::JoinMirrored);
    match tree {
        Tree::Leaf => {},
        Tree::Arm { children } => {
            let head = seq![
                Command::Arm { depth: depth as usize, taper: config.depth_scale(depth as usize) },
            ];
            let rest = children_commands(config, depth, children);
            lemma_children_joined_twice(config, depth, children);
            lemma_occurrences_add(head, rest, Command::Child);
            lemma_occurrences_add(head, rest, Command::Place);
            lemma_occurrences_add(head, rest, Command::Join);
            lemma_occurrences_add(head, rest, Command::JoinMirrored);
        },
    }
}

/// The same of the construction of the children of an arm.
proof fn lemma_children_joined_twice(config: ConfigView, depth: nat, children: Seq<Tree>)
    ensures
        occurrences(children_commands(config, depth, children), Command::Child)
            == descendants_of(children),
        occurrences(children_commands(config, depth, children), Command::Place)
            == descendants_of(children),
        occurrences(children_commands(config, depth, children), Command::Join)
            == descendants_of(children),
        occurrences(children_commands(config, depth, children), Command::JoinMirrored)
            == descendants_of(children),
    decreases children, 1nat,
{
    lemma_occurrences_few(Command::Child);
    lemma_occurrences_few(Command::Place);
    lemma_occurrences_few(Command::Join);
    lemma_occurrences_few(Command::JoinMirrored);
    if children.len() > 0 {
        let before = children_commands(config, depth, children.drop_last());
        let draw = seq![Command::Child];
        let child = arm_commands(config, depth + 1, children.last());
        let place = seq![Command::Place];
        let join = seq![Command::Join];
        let mirrored = seq![Command::JoinMirrored];
        lemma_children_joined_twice(config, depth, children.drop_last());
        lemma_arm_joins_each_child_twice(config, depth + 1, children.last());
        assert(children_commands(config, depth, children) =~= before + draw + child + place
            + join + mirrored);
        lemma_unions_add_up(before + draw + child + place + join, mirrored);
        lemma_unions_add_up(before + draw + child + place, join);
        lemma_unions_add_up(before + draw + child, place);
        lemma_unions_add_up(before + draw, child);
        lemma_unions_add_up(before, draw);
    }
}

} // verus!

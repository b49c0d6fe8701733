//! Every complete plan is the construction of a tree.
//!
//! A run of the planner is followed step by step: at every moment the
//! commands that it has emitted are the construction of a tree in the
//! making, and once the socket is cut, of a whole tree.

use crate::config::ConfigView;
use crate::construction::arm_commands;
use crate::construction::children_commands;
use crate::construction::copies;
use crate::construction::fits;
use crate::construction::lemma_copies_push;
use crate::construction::plan_commands;
use crate::construction::Tree;
use crate::plan::Command;
use crate::plan::Event;
use crate::plan::Phase;
use crate::plan::PlannerView;
use crate::plan::REPLICAS;
use crate::run::run;
use crate::run::trace;
use crate::solid::boss_model;
use crate::solid::extrusion_model;
use vstd::prelude::*;

verus! {

/// A run in the making, seen as a tree that is not yet whole.
struct Progress {
    /// For each arm that is being drawn, from the root inwards, the children
    /// that are joined to it already.
    done: Seq<Seq<Tree>>,
    /// The arm that closed last. It counts while that arm waits to be joined
    /// to its parent, and once the root arm has closed.
    closed: Tree,
}

/// The commands that have begun the arms in the making and have built the
/// children that are joined to them.
spec fn laid(config: ConfigView, done: Seq<Seq<Tree>>) -> Seq<Command>
    decreases done.len(),
{
    if done.len() == 0 {
        Seq::empty()
    } else {
        laid(config, done.drop_last()) + (if done.len() > 1 {
            seq![Command::Child]
        } else {
            Seq::empty()
        }) + arm_commands(config, (done.len() - 1) as nat, Tree::Arm { children: done.last() })
    }
}

/// Whether a child of the innermost arm is drawn and not yet joined.
spec fn in_flight(phase: Phase) -> bool {
    phase is Measuring || phase is Returned || phase is Placed || phase is Joined
}

/// The commands that a run must have emitted to stand where it stands.
spec fn expected(state: PlannerView, progress: Progress) -> Seq<Command> {
    let config = state.config;
    let so_far = laid(config, progress.done);
    let child = seq![Command::Child] + arm_commands(
        config,
        progress.done.len(),
        progress.closed,
    );
    let root = arm_commands(config, 0, progress.closed);
    match state.phase {
        Phase::Start => Seq::empty(),
        Phase::Counting | Phase::Branching => so_far,
        Phase::Measuring => so_far + seq![Command::Child],
        Phase::Returned => so_far + child,
        Phase::Placed => so_far + child + seq![Command::Place],
        Phase::Joined => so_far + child + seq![Command::Place, Command::Join],
        Phase::Replicating { made } => root + copies(made as nat),
        Phase::Extruded => root + copies(REPLICAS as nat) + seq![
            Command::Extrude { slab: extrusion_model() },
        ],
        Phase::Mounted => root + copies(REPLICAS as nat) + seq![
            Command::Extrude { slab: extrusion_model() },
            Command::Mount { foot: boss_model() },
        ],
        Phase::Done => plan_commands(config, progress.closed),
    }
}

/// What ties a state of the planner to the tree in the making.
spec fn follows(state: PlannerView, progress: Progress) -> bool {
    let config = state.config;
    let done = progress.done;
    &&& state.wf()
    &&& done.len() == state.nesting()
    &&& forall|i: int, j: int|
        0 <= i < done.len() && 0 <= j < done[i].len() ==> fits(
            config,
            (i + 1) as nat,
            #[trigger] done[i][j],
        )
    &&& forall|i: int|
        0 <= i < state.open.len() ==> (#[trigger] done[i]).len() + state.open[i] + (if i + 1
            < done.len() || in_flight(state.phase) {
            1nat
        } else {
            0nat
        }) <= config.max_children
    &&& done.len() > 0 ==> !config.root_is_short()
    &&& state.phase is Counting ==> done.last().len() == 0
    &&& state.phase is Returned ==> progress.closed is Leaf
    &&& in_flight(state.phase) && !(state.phase is Measuring) ==> fits(
        config,
        done.len(),
        progress.closed,
    )
    &&& state.open.len() == 0 && !(state.phase is Start) && !(state.phase is Counting) ==> {
        &&& fits(config, 0, progress.closed)
        &&& progress.closed is Leaf <==> config.max_depth == 0 || config.root_is_short()
    }
}

/// What is laid once one more arm is begun.
proof fn lemma_laid_open(config: ConfigView, done: Seq<Seq<Tree>>)
    ensures
        laid(config, done.push(Seq::empty())) == laid(config, done) + (if done.len() > 0 {
            seq![Command::Child]
        } else {
            Seq::empty()
        }) + seq![
            Command::Arm {
                depth: done.len() as usize,
                taper: config.depth_scale(done.len() as usize),
            },
        ],
{
    let longer = done.push(Seq::<Tree>::empty());
    assert(longer.drop_last() =~= done);
    assert(longer.last() =~= Seq::<Tree>::empty());
    let arm = Tree::Arm { children: longer.last() };
    assert(children_commands(config, done.len(), longer.last()) =~= Seq::<Command>::empty());
    assert(arm_commands(config, done.len(), arm) =~= seq![
        Command::Arm {
            depth: done.len() as usize,
            taper: config.depth_scale(done.len() as usize),
        },
    ]);
}

/// What is laid once the child that closed last is joined to the innermost
/// arm.
proof fn lemma_laid_join(config: ConfigView, done: Seq<Seq<Tree>>, closed: Tree)
    requires
        done.len() > 0,
    ensures
        laid(config, done.update(done.len() - 1, done.last().push(closed))) == laid(config, done)
            + (seq![Command::Child] + arm_commands(config, done.len(), closed)) + seq![
            Command::Place,
            Command::Join,
        ] + seq![Command::JoinMirrored],
{
    let depth = (done.len() - 1) as nat;
    let grown = done.last().push(closed);
    let after = done.update(done.len() - 1, grown);
    assert(after.drop_last() =~= done.drop_last());
    assert(after.last() =~= grown);
    assert(grown.drop_last() =~= done.last());
    assert(grown.last() == closed);
    let before = laid(config, done.drop_last()) + (if done.len() > 1 {
        seq![Command::Child]
    } else {
        Seq::empty()
    });
    let head = seq![
        Command::Arm { depth: depth as usize, taper: config.depth_scale(depth as usize) },
    ];
    let old_children = children_commands(config, depth, done.last());
    let new_children = children_commands(config, depth, grown);
    assert(new_children == old_children + seq![Command::Child] + arm_commands(
        config,
        depth + 1,
        closed,
    ) + seq![Command::Place, Command::Join, Command::JoinMirrored]);
    assert(laid(config, after) == before + (head + new_children));
    assert(laid(config, done) == before + (head + old_children));
    assert(before + (head + new_children) =~= before + (head + old_children) + (seq![
        Command::Child,
    ] + arm_commands(config, done.len(), closed)) + seq![Command::Place, Command::Join] + seq![
        Command::JoinMirrored,
    ]);
}

/// The innermost arm in the making closes: it becomes a tree, and what was
/// laid for it is the construction of that tree.
proof fn lemma_close(state: PlannerView, progress: Progress, inner: PlannerView) -> (next:
    Progress)
    requires
        state.wf(),
        progress.done.len() > 0,
        progress.done.len() <= state.config.max_depth,
        inner.config == state.config,
        inner.open.len() + 1 == progress.done.len(),
        progress.done.last().len() <= state.config.max_children,
        !state.config.root_is_short(),
        forall|i: int, j: int|
            0 <= i < progress.done.len() && 0 <= j < progress.done[i].len() ==> fits(
                state.config,
                (i + 1) as nat,
                #[trigger] progress.done[i][j],
            ),
        forall|i: int|
            0 <= i < inner.open.len() ==> (#[trigger] progress.done[i]).len() + inner.open[i] + 1
                <= state.config.max_children,
    ensures
        next.done == progress.done.drop_last(),
        next.closed == (Tree::Arm { children: progress.done.last() }),
        follows(inner.close().0, next),
        expected(inner.close().0, next) == laid(state.config, progress.done).push(
            inner.close().1,
        ),
{
    let config = state.config;
    let done = progress.done;
    let tree = Tree::Arm { children: done.last() };
    let next = Progress { done: done.drop_last(), closed: tree };
    let depth = (done.len() - 1) as nat;
    assert forall|j: int| 0 <= j < done.last().len() implies fits(
        config,
        depth + 1,
        #[trigger] done.last()[j],
    ) by {
        assert(fits(config, (done.len() - 1 + 1) as nat, done[done.len() - 1][j]));
    }
    assert(fits(config, depth, tree));
    let after = inner.close().0;
    if inner.open.len() == 0 {
        lemma_copies_push(0);
        assert(laid(config, done.drop_last()) =~= Seq::<Command>::empty());
        assert(laid(config, done) =~= arm_commands(config, 0, tree));
        assert(copies(1) =~= seq![Command::Replicate { index: 0, count: REPLICAS }]);
        assert(expected(after, next) =~= laid(config, done).push(inner.close().1));
    } else {
        assert(expected(after, next) =~= laid(config, done).push(inner.close().1));
    }
    assert forall|i: int, j: int|
        0 <= i < next.done.len() && 0 <= j < next.done[i].len() implies fits(
        config,
        (i + 1) as nat,
        #[trigger] next.done[i][j],
    ) by {
        assert(next.done[i] == done[i]);
    }
    assert forall|i: int| 0 <= i < after.open.len() implies (#[trigger] next.done[i]).len()
        + after.open[i] + (if i + 1 < next.done.len() || in_flight(after.phase) {
        1nat
    } else {
        0nat
    }) <= config.max_children by {
        assert(next.done[i] == done[i]);
    }
    assert forall|i: int| 0 <= i < after.open.len() implies after.open[i]
        <= config.max_children by {
        assert(done[i].len() + inner.open[i] + 1 <= config.max_children);
    }
    next
}

/// One accepted step extends the tree in the making by what the step emits.
proof fn lemma_step_follows(state: PlannerView, progress: Progress, event: Event) -> (next:
    Progress)
    requires
        follows(state, progress),
        state.step(event).1 is Ok,
    ensures
        follows(state.step(event).0, next),
        expected(state.step(event).0, next) == expected(state, progress).push(
            state.step(event).1->Ok_0,
        ),
{
    let config = state.config;
    let done = progress.done;
    let after = state.step(event).0;
    let command = state.step(event).1->Ok_0;
    crate::plan::lemma_step_keeps_wf(state, event);
    match state.phase {
        Phase::Start => {
            if config.max_depth == 0 || config.root_is_short() {
                let next = Progress { done, closed: Tree::Leaf };
                lemma_copies_push(0);
                assert(expected(after, next) =~= expected(state, progress).push(command));
                next
            } else {
                let next = Progress { done: done.push(Seq::empty()), closed: progress.closed };
                lemma_laid_open(config, done);
                assert(done =~= Seq::<Seq<Tree>>::empty());
                assert(laid(config, done) =~= Seq::<Command>::empty());
                assert(expected(after, next) =~= expected(state, progress).push(command));
                next
            }
        },
        Phase::Counting => {
            let count = event->ChildCount_0;
            let counted = PlannerView { open: state.open.push(count), ..state };
            assert(counted.open.drop_last() =~= state.open);
            if count > 0 {
                assert(expected(after, progress) =~= expected(state, progress).push(command));
                progress
            } else {
                let inner = PlannerView { open: counted.open.drop_last(), ..counted };
                assert(inner.open == state.open);
                let next = lemma_close(state, progress, inner);
                next
            }
        },
        Phase::Branching => {
            let left = state.open.last();
            if left > 0 {
                assert(expected(after, progress) =~= expected(state, progress).push(command));
                progress
            } else {
                let inner = PlannerView { open: state.open.drop_last(), ..state };
                assert(done[state.open.len() - 1].len() + state.open[state.open.len() - 1]
                    <= config.max_children);
                assert forall|i: int| 0 <= i < inner.open.len() implies (#[trigger] done[i]).len()
                    + inner.open[i] + 1 <= config.max_children by {
                    assert(inner.open[i] == state.open[i]);
                }
                let next = lemma_close(state, progress, inner);
                next
            }
        },
        Phase::Measuring => {
            if state.open.len() == config.max_depth || event->short {
                let next = Progress { done, closed: Tree::Leaf };
                assert(expected(after, next) =~= expected(state, progress).push(command));
                next
            } else {
                let next = Progress { done: done.push(Seq::empty()), closed: progress.closed };
                lemma_laid_open(config, done);
                assert(expected(after, next) =~= expected(state, progress).push(command));
                assert forall|i: int, j: int|
                    0 <= i < next.done.len() && 0 <= j < next.done[i].len() implies fits(
                    config,
                    (i + 1) as nat,
                    #[trigger] next.done[i][j],
                ) by {
                    assert(next.done[i] == done[i]);
                }
                assert forall|i: int| 0 <= i < after.open.len() implies (
                #[trigger] next.done[i]).len() + after.open[i] + (if i + 1 < next.done.len()
                    || in_flight(after.phase) {
                    1nat
                } else {
                    0nat
                }) <= config.max_children by {
                    assert(next.done[i] == done[i]);
                }
                next
            }
        },
        Phase::Returned => {
            assert(expected(after, progress) =~= expected(state, progress).push(command));
            progress
        },
        Phase::Placed => {
            assert(expected(after, progress) =~= expected(state, progress).push(command));
            progress
        },
        Phase::Joined => {
            let last = done.len() - 1;
            let next = Progress {
                done: done.update(last, done.last().push(progress.closed)),
                closed: progress.closed,
            };
            lemma_laid_join(config, done, progress.closed);
            assert(expected(after, next) =~= expected(state, progress).push(command));
            assert forall|i: int, j: int|
                0 <= i < next.done.len() && 0 <= j < next.done[i].len() implies fits(
                config,
                (i + 1) as nat,
                #[trigger] next.done[i][j],
            ) by {
                if i == last && j == done.last().len() {
                } else {
                    assert(next.done[i][j] == done[i][j]);
                }
            }
            assert forall|i: int| 0 <= i < after.open.len() implies (#[trigger] next.done[i]).len()
                + after.open[i] + (if i + 1 < next.done.len() || in_flight(after.phase) {
                1nat
            } else {
                0nat
            }) <= config.max_children by {
                if i != last {
                    assert(next.done[i] == done[i]);
                }
            }
            next
        },
        Phase::Replicating { made } => {
            lemma_copies_push(made as nat);
            assert(expected(after, progress) =~= expected(state, progress).push(command));
            progress
        },
        Phase::Extruded => {
            assert(expected(after, progress) =~= expected(state, progress).push(command));
            progress
        },
        Phase::Mounted => {
            assert(expected(after, progress) =~= expected(state, progress).push(command));
            progress
        },
        Phase::Done => progress,
    }
}

/// Every run from the start follows a tree in the making.
proof fn lemma_run_follows(config: ConfigView, events: Seq<Event>) -> (progress: Progress)
    ensures
        follows(run(PlannerView::initial(config), events), progress),
        trace(PlannerView::initial(config), events) == expected(
            run(PlannerView::initial(config), events),
            progress,
        ),
    decreases events.len(),
{
    let start = PlannerView::initial(config);
    if events.len() == 0 {
        Progress { done: Seq::empty(), closed: Tree::Leaf }
    } else {
        let before = lemma_run_follows(config, events.drop_last());
        let state = run(start, events.drop_last());
        if state.step(events.last()).1 is Ok {
            lemma_step_follows(state, before, events.last())
        } else {
            before
        }
    }
}

/// Every complete plan is the construction of a tree.
///
/// Whatever events a run was fed, once the socket is cut the commands that
/// it has emitted are those of one tree of arms that respects the
/// configuration, followed by the tail that every plan ends in. The tree is
/// a bare leaf, and the silhouette empty, exactly where the ceiling is zero
/// or the root arm falls under the cutoff.
pub proof fn lemma_complete_plan_is_a_tree(config: ConfigView, events: Seq<Event>) -> (tree:
    Tree)
    requires
        run(PlannerView::initial(config), events).phase is Done,
    ensures
        fits(config, 0, tree),
        tree is Leaf <==> config.max_depth == 0 || config.root_is_short(),
        trace(PlannerView::initial(config), events) == plan_commands(config, tree),
{
    let progress = lemma_run_follows(config, events);
    crate::run::lemma_run_keeps_wf(PlannerView::initial(config), events);
    progress.closed
}

} // verus!

//! The planner: the executable form of the model in [`crate::plan`].

use crate::config::Config;
use crate::plan::lemma_step_keeps_wf;
use crate::plan::Awaited;
use crate::plan::Command;
use crate::plan::Event;
use crate::plan::Phase;
use crate::plan::PlannerView;
use crate::plan::StepError;
use crate::plan::REPLICAS;
use crate::solid::boss;
use crate::solid::extrusion;
use crate::solid::magnet;
use vstd::prelude::*;

verus! {

/// The working state of a planner: the fields that a step changes one by
/// one. Between two steps it is well formed; within a step it need not be.
struct Machine {
    config: Config,
    open: Vec<usize>,
    phase: Phase,
}

impl View for Machine {
    type V = PlannerView;

    closed spec fn view(&self) -> PlannerView {
        PlannerView { config: self.config@, open: self.open@, phase: self.phase }
    }
}

impl Machine {
    fn new(config: Config) -> (machine: Machine)
        ensures
            machine@ == PlannerView::initial(config@),
            machine@.wf(),
    {
        Machine { config, open: Vec::new(), phase: Phase::Start }
    }

    fn config(&self) -> (config: Config)
        ensures
            config@ == self@.config,
    {
        self.config
    }

    fn awaits(&self) -> (awaited: Awaited)
        ensures
            awaited == self@.awaits(),
    {
        match self.phase {
            Phase::Done => Awaited::Nothing,
            Phase::Counting => Awaited::ChildCount,
            Phase::Measuring => Awaited::ChildLength,
            _ => Awaited::Proceed,
        }
    }

    fn is_finished(&self) -> (finished: bool)
        ensures
            finished == (self@.phase is Done),
    {
        match self.phase {
            Phase::Done => true,
            _ => false,
        }
    }

    fn nesting(&self) -> (arms: usize)
        requires
            self@.wf(),
        ensures
            arms == self@.nesting(),
            arms <= self@.config.max_depth,
    {
        match self.phase {
            Phase::Counting => self.open.len() + 1,
            _ => self.open.len(),
        }
    }

    fn refusal(&self, event: Event) -> (refused: Option<StepError>)
        ensures
            refused == self@.refusal(event),
    {
        match (self.awaits(), event) {
            (Awaited::Nothing, _) => Some(StepError::Finished),
            (Awaited::Proceed, Event::Proceed) => None,
            (Awaited::ChildLength, Event::ChildLength { .. }) => None,
            (Awaited::ChildCount, Event::ChildCount(count)) => if count
                > self.config.max_children() {
                Some(StepError::TooManyChildren)
            } else {
                None
            },
            _ => Some(StepError::Unexpected),
        }
    }

    fn enter(&mut self, depth: usize, short: bool, rest: Phase) -> (command: Command)
        requires
            depth <= old(self)@.config.max_depth,
        ensures
            (final(self)@, command) == old(self)@.enter(depth, short, rest),
    {
        if depth == self.config.max_depth() || short {
            self.phase = rest;
            Command::Empty
        } else {
            self.phase = Phase::Counting;
            Command::Arm { depth, taper: self.config.depth_scale(depth) }
        }
    }

    fn close(&mut self) -> (command: Command)
        ensures
            (final(self)@, command) == old(self)@.close(),
    {
        if self.open.len() == 0 {
            self.phase = Phase::Replicating { made: 1 };
            Command::Replicate { index: 0, count: REPLICAS }
        } else {
            self.phase = Phase::Placed;
            Command::Place
        }
    }

    fn branch(&mut self) -> (command: Command)
        requires
            old(self)@.open.len() > 0,
        ensures
            (final(self)@, command) == old(self)@.branch(),
    {
        let left = self.open.pop().unwrap();
        if left > 0 {
            self.open.push(left - 1);
            self.phase = Phase::Measuring;
            Command::Child
        } else {
            self.close()
        }
    }

    fn finish(&mut self) -> (command: Command)
        requires
            old(self)@.wf(),
        ensures
            (final(self)@, command) == old(self)@.finish(),
    {
        match self.phase {
            Phase::Replicating { made } => if made < REPLICAS {
                self.phase = Phase::Replicating { made: made + 1 };
                Command::Replicate { index: made, count: REPLICAS }
            } else {
                self.phase = Phase::Extruded;
                Command::Extrude { slab: extrusion() }
            },
            Phase::Extruded => {
                self.phase = Phase::Mounted;
                Command::Mount { foot: boss() }
            },
            _ => {
                self.phase = Phase::Done;
                Command::Socket { magnet: magnet() }
            },
        }
    }

    fn step(&mut self, event: Event) -> (emitted: Result<Command, StepError>)
        requires
            old(self)@.wf(),
        ensures
            (final(self)@, emitted) == old(self)@.step(event),
            final(self)@.wf(),
    {
        proof {
            lemma_step_keeps_wf(self@, event);
        }
        match self.refusal(event) {
            Some(error) => Err(error),
            None => {
                let command = match self.phase {
                    Phase::Start => {
                        let short = self.config.root_is_short();
                        self.enter(0, short, Phase::Replicating { made: 0 })
                    },
                    Phase::Counting => {
                        match event {
                            Event::ChildCount(count) => {
                                self.open.push(count);
                            },
                            _ => {},
                        }
                        self.branch()
                    },
                    Phase::Branching => self.branch(),
                    Phase::Measuring => {
                        let short = match event {
                            Event::ChildLength { short } => short,
                            _ => false,
                        };
                        self.enter(self.open.len(), short, Phase::Returned)
                    },
                    Phase::Returned => {
                        self.phase = Phase::Placed;
                        Command::Place
                    },
                    Phase::Placed => {
                        self.phase = Phase::Joined;
                        Command::Join
                    },
                    Phase::Joined => {
                        self.phase = Phase::Branching;
                        Command::JoinMirrored
                    },
                    _ => self.finish(),
                };
                Ok(command)
            },
        }
    }
}

/// Plans one snowflake, a command at a time.
///
/// Every planner is well formed, whoever holds it: no more arms are open in
/// it than the ceiling allows, and none of them expects more children than
/// the maximum.
pub struct Planner {
    machine: Machine,
}

impl View for Planner {
    type V = PlannerView;

    closed spec fn view(&self) -> PlannerView {
        self.machine@
    }
}

impl Planner {
    #[verifier::type_invariant]
    spec fn well_formed(self) -> bool {
        self.machine@.wf()
    }

    /// A planner for one snowflake of this configuration, before its first
    /// step.
    pub fn new(config: Config) -> (planner: Planner)
        ensures
            planner@ == PlannerView::initial(config@),
    {
        Planner { machine: Machine::new(config) }
    }

    /// The configuration that this planner works to.
    pub fn config(&self) -> (config: Config)
        ensures
            config@ == self@.config,
    {
        self.machine.config()
    }

    /// The event that the next step takes.
    pub fn awaits(&self) -> (awaited: Awaited)
        ensures
            awaited == self@.awaits(),
    {
        self.machine.awaits()
    }

    /// Whether the plan is complete.
    pub fn is_finished(&self) -> (finished: bool)
        ensures
            finished == (self@.phase is Done),
    {
        self.machine.is_finished()
    }

    /// The number of arms that are being drawn, one inside the other. It
    /// never exceeds the configured ceiling.
    pub fn nesting(&self) -> (arms: usize)
        ensures
            self@.wf(),
            arms == self@.nesting(),
            arms <= self@.config.max_depth,
    {
        proof {
            use_type_invariant(self);
        }
        self.machine.nesting()
    }

    /// Takes `event` and emits the next command.
    ///
    /// The first step takes `Proceed`. After `Arm` the planner awaits the
    /// number of children, after `Child` the verdict on the child's length,
    /// and after every other command `Proceed`. An event of another kind, a
    /// count above the maximum, and any event after `Socket` are refused,
    /// and the planner stays as it was.
    pub fn step(&mut self, event: Event) -> (emitted: Result<Command, StepError>)
        ensures
            (final(self)@, emitted) == old(self)@.step(event),
            old(self)@.wf(),
            final(self)@.wf(),
    {
        proof {
            use_type_invariant(&*self);
        }
        let mut machine = Machine::new(self.machine.config());
        core::mem::swap(&mut self.machine, &mut machine);
        let emitted = machine.step(event);
        self.machine = machine;
        emitted
    }
}

} // verus!

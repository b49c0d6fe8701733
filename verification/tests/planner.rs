use snowflake::config::Config;
use snowflake::measure::Length;
use snowflake::measure::Ratio;
use snowflake::plan::Awaited;
use snowflake::plan::Command;
use snowflake::plan::Event;
use snowflake::plan::StepError;
use snowflake::planner::Planner;
use snowflake::solid::boss;
use snowflake::solid::extrusion;
use snowflake::solid::magnet;

fn config(len: u64, max_depth: usize, max_children: usize) -> Config {
    Config::new(
        Length::from_thousandths(len),
        max_depth,
        max_children,
        Length::from_thousandths(4000),
        Length::from_thousandths(2000),
    )
    .unwrap()
}

fn arm(depth: usize, numerator: usize, denominator: usize) -> Command {
    Command::Arm { depth, taper: Ratio { numerator, denominator } }
}

fn tail() -> Vec<Command> {
    let mut commands = Vec::new();
    for index in 0..6 {
        commands.push(Command::Replicate { index, count: 6 });
    }
    commands.push(Command::Extrude { slab: extrusion() });
    commands.push(Command::Mount { foot: boss() });
    commands.push(Command::Socket { magnet: magnet() });
    commands
}

fn feed(planner: &mut Planner, events: &[Event]) -> Vec<Command> {
    events.iter().map(|event| planner.step(*event).unwrap()).collect()
}

fn finish(planner: &mut Planner) -> Vec<Command> {
    let mut commands = Vec::new();
    while !planner.is_finished() {
        commands.push(planner.step(Event::Proceed).unwrap());
    }
    commands
}

#[test]
fn a_root_arm_with_two_children() {
    let mut planner = Planner::new(config(25000, 2, 6));
    let go = Event::Proceed;
    let events = [
        go,
        Event::ChildCount(2),
        Event::ChildLength { short: false },
        Event::ChildCount(0),
        go,
        go,
        go,
        Event::ChildLength { short: true },
        go,
        go,
        go,
        go,
    ];
    let commands = feed(&mut planner, &events);
    let expected = vec![
        arm(0, 2, 2),
        Command::Child,
        arm(1, 1, 2),
        Command::Place,
        Command::Join,
        Command::JoinMirrored,
        Command::Child,
        Command::Empty,
        Command::Place,
        Command::Join,
        Command::JoinMirrored,
        Command::Replicate { index: 0, count: 6 },
    ];
    assert_eq!(commands, expected);
    let rest = finish(&mut planner);
    assert_eq!(rest, tail()[1..].to_vec());
}

#[test]
fn a_child_at_the_ceiling_is_not_drawn() {
    let mut planner = Planner::new(config(25000, 1, 6));
    let events = [Event::Proceed, Event::ChildCount(1), Event::ChildLength { short: false }];
    let commands = feed(&mut planner, &events);
    assert_eq!(commands, vec![arm(0, 1, 1), Command::Child, Command::Empty]);
    assert_eq!(planner.nesting(), 1);
}

#[test]
fn a_ceiling_of_zero_gives_the_empty_silhouette() {
    let mut planner = Planner::new(config(25000, 0, 6));
    let mut expected = vec![Command::Empty];
    expected.extend(tail());
    assert_eq!(finish(&mut planner), expected);
}

#[test]
fn a_short_root_gives_the_empty_silhouette() {
    let mut planner = Planner::new(config(499, 3, 6));
    let mut expected = vec![Command::Empty];
    expected.extend(tail());
    assert_eq!(finish(&mut planner), expected);
}

#[test]
fn a_root_at_the_cutoff_is_drawn() {
    let mut planner = Planner::new(config(500, 3, 6));
    assert_eq!(planner.step(Event::Proceed), Ok(arm(0, 3, 3)));
}

#[test]
fn the_planner_says_what_it_awaits() {
    let mut planner = Planner::new(config(25000, 2, 6));
    assert_eq!(planner.awaits(), Awaited::Proceed);
    planner.step(Event::Proceed).unwrap();
    assert_eq!(planner.awaits(), Awaited::ChildCount);
    planner.step(Event::ChildCount(1)).unwrap();
    assert_eq!(planner.awaits(), Awaited::ChildLength);
    planner.step(Event::ChildLength { short: true }).unwrap();
    assert_eq!(planner.awaits(), Awaited::Proceed);
    finish(&mut planner);
    assert_eq!(planner.awaits(), Awaited::Nothing);
}

#[test]
fn an_event_of_another_kind_is_refused() {
    let mut planner = Planner::new(config(25000, 2, 6));
    assert_eq!(planner.step(Event::ChildCount(1)), Err(StepError::Unexpected));
    assert_eq!(planner.step(Event::ChildLength { short: false }), Err(StepError::Unexpected));
    assert_eq!(planner.step(Event::Proceed), Ok(arm(0, 2, 2)));
    assert_eq!(planner.step(Event::Proceed), Err(StepError::Unexpected));
    assert_eq!(planner.step(Event::ChildLength { short: true }), Err(StepError::Unexpected));
    assert_eq!(planner.step(Event::ChildCount(1)), Ok(Command::Child));
    assert_eq!(planner.step(Event::Proceed), Err(StepError::Unexpected));
    assert_eq!(planner.step(Event::ChildCount(0)), Err(StepError::Unexpected));
    assert_eq!(planner.step(Event::ChildLength { short: true }), Ok(Command::Empty));
}

#[test]
fn a_count_above_the_maximum_is_refused() {
    let mut planner = Planner::new(config(25000, 2, 6));
    planner.step(Event::Proceed).unwrap();
    assert_eq!(planner.step(Event::ChildCount(7)), Err(StepError::TooManyChildren));
    assert_eq!(planner.awaits(), Awaited::ChildCount);
    assert_eq!(planner.step(Event::ChildCount(6)), Ok(Command::Child));
}

#[test]
fn a_finished_planner_refuses_every_event() {
    let mut planner = Planner::new(config(25000, 0, 0));
    finish(&mut planner);
    assert!(planner.is_finished());
    assert_eq!(planner.step(Event::Proceed), Err(StepError::Finished));
    assert_eq!(planner.step(Event::ChildCount(0)), Err(StepError::Finished));
    assert_eq!(planner.step(Event::ChildLength { short: true }), Err(StepError::Finished));
}

#[test]
fn a_refused_step_changes_nothing() {
    let mut refused = Planner::new(config(25000, 2, 2));
    let mut plain = Planner::new(config(25000, 2, 2));
    let events = [
        Event::Proceed,
        Event::ChildCount(2),
        Event::ChildLength { short: false },
        Event::ChildCount(1),
        Event::ChildLength { short: false },
    ];
    for event in events {
        assert_eq!(refused.step(Event::ChildCount(9)).is_err(), true);
        assert_eq!(refused.step(event), plain.step(event));
        assert_eq!(refused.nesting(), plain.nesting());
    }
    assert_eq!(finish_children(&mut refused), finish_children(&mut plain));
}

#[test]
fn nesting_counts_the_arms_in_the_making() {
    let mut planner = Planner::new(config(25000, 3, 2));
    assert_eq!(planner.nesting(), 0);
    planner.step(Event::Proceed).unwrap();
    assert_eq!(planner.nesting(), 1);
    planner.step(Event::ChildCount(1)).unwrap();
    assert_eq!(planner.nesting(), 1);
    planner.step(Event::ChildLength { short: false }).unwrap();
    assert_eq!(planner.nesting(), 2);
    planner.step(Event::ChildCount(1)).unwrap();
    planner.step(Event::ChildLength { short: false }).unwrap();
    assert_eq!(planner.nesting(), 3);
    assert_eq!(planner.step(Event::ChildCount(2)), Ok(Command::Child));
    assert_eq!(planner.step(Event::ChildLength { short: false }), Ok(Command::Empty));
    assert_eq!(planner.nesting(), 3);
    finish_children(&mut planner);
    assert_eq!(planner.nesting(), 0);
}

fn finish_children(planner: &mut Planner) -> Vec<Command> {
    let mut commands = Vec::new();
    while !planner.is_finished() {
        let event = match planner.awaits() {
            Awaited::ChildLength => Event::ChildLength { short: true },
            Awaited::ChildCount => Event::ChildCount(0),
            _ => Event::Proceed,
        };
        commands.push(planner.step(event).unwrap());
    }
    commands
}

fn largest_plan(config: Config) -> Vec<Command> {
    let mut planner = Planner::new(config);
    let mut commands = Vec::new();
    while !planner.is_finished() {
        let event = match planner.awaits() {
            Awaited::ChildLength => Event::ChildLength { short: false },
            Awaited::ChildCount => Event::ChildCount(config.max_children()),
            _ => Event::Proceed,
        };
        commands.push(planner.step(event).unwrap());
    }
    commands
}

#[test]
fn the_largest_plan_spends_the_budget() {
    assert_eq!(largest_plan(config(25000, 2, 6)).len(), 220);
    assert_eq!(largest_plan(config(60000, 4, 4)).len(), 1710);
    assert_eq!(largest_plan(config(60000, 0, 4)).len(), 10);
    assert_eq!(largest_plan(config(60000, 3, 0)).len(), 10);
    assert_eq!(largest_plan(config(100, 4, 4)).len(), 10);
}

#[test]
fn the_planner_keeps_its_configuration() {
    let planner = Planner::new(config(25000, 3, 2));
    assert_eq!(planner.config().max_depth(), 3);
    assert_eq!(planner.config().max_children(), 2);
    assert_eq!(planner.config().initial_branch_len(), Length::from_thousandths(25000));
}

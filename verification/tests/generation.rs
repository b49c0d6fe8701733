use rand::Rng;
use snowflake::config::Config;
use snowflake::measure::Length;
use snowflake::plan::child_ranges;
use snowflake::plan::Awaited;
use snowflake::plan::Command;
use snowflake::plan::Event;
use snowflake::plan::StepError;
use snowflake::solid::boss;
use snowflake::solid::extrusion;
use snowflake::solid::magnet;

struct Grown {
    commands: Vec<Command>,
    reals: Vec<f64>,
    deepest: usize,
}

fn units(length: Length) -> f64 {
    length.thousandths as f64 / 1000.0
}

fn large() -> Config {
    Config::new(
        Length::from_thousandths(60000),
        4,
        4,
        Length::from_thousandths(8000),
        Length::from_thousandths(1000),
    )
    .unwrap()
}

fn small() -> Config {
    Config::new(
        Length::from_thousandths(12500),
        2,
        6,
        Length::from_thousandths(3000),
        Length::from_thousandths(1000),
    )
    .unwrap()
}

fn childless() -> Config {
    Config::new(
        Length::from_thousandths(25000),
        3,
        0,
        Length::from_thousandths(4000),
        Length::from_thousandths(2000),
    )
    .unwrap()
}

/// Runs one generation as a backend would, with the reals drawn from the
/// snowflake's source, and keeps what was emitted and drawn.
fn grow(config: Config, seed: u64) -> Grown {
    let mut flake = config.snowflake(seed);
    let mut lengths = vec![units(config.initial_branch_len())];
    let mut grown = Grown { commands: Vec::new(), reals: Vec::new(), deepest: 0 };
    let mut event = Event::Proceed;
    while !flake.is_finished() {
        let command = flake.advance(event).unwrap();
        event = Event::Proceed;
        match command {
            Command::Arm { taper, .. } => {
                let scale = taper.numerator as f64 / taper.denominator as f64;
                let low = units(config.min_width());
                let high = units(config.max_width());
                grown.reals.push(flake.source.generator.gen_range(low..=high) * scale);
            }
            Command::Child => {
                let length = *lengths.last().unwrap();
                let offset = flake.source.generator.gen_range(0.0..(length * 0.8));
                let child = flake.source.generator.gen_range(0.0..(length * 0.9));
                let rotation = flake.source.generator.gen_range(30.0..170.0);
                grown.reals.extend([offset, child, rotation]);
                lengths.push(child);
                event = Event::ChildLength { short: child < 0.5 };
            }
            Command::Place => {
                lengths.pop();
            }
            _ => {}
        }
        grown.deepest = grown.deepest.max(flake.nesting());
        grown.commands.push(command);
    }
    grown
}

fn count(commands: &[Command], wanted: fn(&Command) -> bool) -> usize {
    commands.iter().filter(|command| wanted(command)).count()
}

/// Reads the construction of one arm at `depth` from the front of
/// `commands` and returns what is left, or `None` where the commands are no
/// such construction.
fn read_arm<'a>(config: &Config, depth: usize, commands: &'a [Command]) -> Option<&'a [Command]> {
    match commands.first()? {
        Command::Empty => Some(&commands[1..]),
        Command::Arm { depth: at, taper } => {
            if *at != depth || depth >= config.max_depth() {
                return None;
            }
            if taper.numerator != config.max_depth() - depth
                || taper.denominator != config.max_depth()
            {
                return None;
            }
            let mut rest = &commands[1..];
            let mut children = 0;
            while rest.first() == Some(&Command::Child) {
                rest = read_arm(config, depth + 1, &rest[1..])?;
                if rest.len() < 3
                    || rest[..3] != [Command::Place, Command::Join, Command::JoinMirrored]
                {
                    return None;
                }
                rest = &rest[3..];
                children += 1;
            }
            if children > config.max_children() {
                return None;
            }
            Some(rest)
        }
        _ => None,
    }
}

fn tail() -> Vec<Command> {
    let mut commands = Vec::new();
    for index in 0..6 {
        commands.push(Command::Replicate { index, count: 6 });
    }
    commands.push(Command::Extrude { slab: extrusion() });
    commands.push(Command::Mount { foot: boss() });
    commands.push(Command::Socket { magnet: magnet() });
    commands
}

#[test]
fn seed_42_of_the_large_class() {
    let grown = grow(large(), 42);
    assert!(matches!(grown.commands[0], Command::Arm { depth: 0, .. }));
    assert_eq!(grown.commands.len(), 235);
    assert_eq!(grown.reals.len(), 155);
    assert_eq!(grown.reals[0], 6.18198297443491);
    let slab = grown
        .commands
        .iter()
        .find_map(|command| match command {
            Command::Extrude { slab } => Some(*slab),
            _ => None,
        })
        .unwrap();
    assert_eq!(units(slab.height), units(magnet().height) + 2.0);
    assert_eq!(units(slab.height), 4.0);
    assert_eq!(units(slab.drop), 2.0);
}

#[test]
fn the_regular_class_is_stable() {
    let lengths: Vec<usize> =
        [0, 1, 2, 3].iter().map(|seed| grow(Config::default(), *seed).commands.len()).collect();
    assert_eq!(lengths, vec![115, 10, 140, 75]);
    assert_eq!(grow(Config::default(), 0).reals[..2], [3.425235737287596, 13.91687161134396]);
    assert_eq!(grow(Config::default(), 1).reals, vec![2.9697385562295944]);
}

#[test]
fn one_seed_gives_one_snowflake() {
    for seed in [46, 43, 42, 36, 33, 31, 26, 25, 24, 23, 11, 2] {
        let first = grow(large(), seed);
        let second = grow(large(), seed);
        assert_eq!(first.commands, second.commands);
        assert_eq!(first.reals, second.reals);
    }
}

#[test]
fn other_seeds_give_other_snowflakes() {
    let seeds: Vec<u64> = (0..40).collect();
    let mut alike = 0;
    let mut pairs = 0;
    for first in &seeds {
        for second in &seeds {
            if first < second {
                pairs += 1;
                if grow(small(), *first).reals == grow(small(), *second).reals {
                    alike += 1;
                }
            }
        }
    }
    assert_eq!(pairs, 780);
    assert_eq!(alike, 0);
}

#[test]
fn no_arm_is_drawn_at_the_ceiling() {
    for seed in 0..50 {
        let config = large();
        let grown = grow(config, seed);
        assert!(grown.deepest <= config.max_depth());
        for command in &grown.commands {
            if let Command::Arm { depth, taper } = command {
                assert!(*depth < config.max_depth());
                assert!(taper.numerator > 0);
            }
        }
    }
}

#[test]
fn every_plan_stays_within_its_budget() {
    for seed in 0..50 {
        assert!(grow(large(), seed).commands.len() <= 1710);
        assert!(grow(Config::default(), seed).commands.len() <= 220);
        assert!(grow(small(), seed).commands.len() <= 220);
    }
}

#[test]
fn the_silhouette_is_replicated_six_times() {
    for config in [large(), small(), childless(), Config::default()] {
        for seed in 0..20 {
            let commands = grow(config, seed).commands;
            let copies: Vec<Command> = commands
                .iter()
                .filter(|command| matches!(command, Command::Replicate { .. }))
                .copied()
                .collect();
            assert_eq!(copies, tail()[..6].to_vec());
        }
    }
}

#[test]
fn every_child_is_joined_twice() {
    for seed in 0..50 {
        let commands = grow(large(), seed).commands;
        let children = count(&commands, |command| matches!(command, Command::Child));
        assert_eq!(count(&commands, |command| matches!(command, Command::Place)), children);
        assert_eq!(count(&commands, |command| matches!(command, Command::Join)), children);
        assert_eq!(count(&commands, |command| matches!(command, Command::JoinMirrored)), children);
        for at in 0..commands.len() {
            if commands[at] == Command::Join {
                assert_eq!(commands[at - 1], Command::Place);
                assert_eq!(commands[at + 1], Command::JoinMirrored);
            }
            if commands[at] == Command::JoinMirrored {
                assert_eq!(commands[at - 1], Command::Join);
            }
        }
    }
}

#[test]
fn the_socket_is_cut_after_the_boss_is_fused() {
    for seed in 0..20 {
        let commands = grow(small(), seed).commands;
        let end = commands.len();
        assert_eq!(commands[end - 3], Command::Extrude { slab: extrusion() });
        assert_eq!(commands[end - 2], Command::Mount { foot: boss() });
        assert_eq!(commands[end - 1], Command::Socket { magnet: magnet() });
        assert_eq!(count(&commands, |command| matches!(command, Command::Extrude { .. })), 1);
        assert_eq!(count(&commands, |command| matches!(command, Command::Mount { .. })), 1);
        assert_eq!(count(&commands, |command| matches!(command, Command::Socket { .. })), 1);
    }
}

#[test]
fn without_children_every_snowflake_is_one_arm() {
    let config = childless();
    let mut expected =
        vec![Command::Arm { depth: 0, taper: config.depth_scale(0) }];
    expected.extend(tail());
    for seed in 0..100 {
        let grown = grow(config, seed);
        assert_eq!(grown.commands, expected);
        assert_eq!(grown.reals.len(), 1);
        assert!(2.0 <= grown.reals[0] && grown.reals[0] <= 4.0);
    }
}

#[test]
fn every_plan_is_the_construction_of_a_tree() {
    for config in [large(), small(), childless(), Config::default()] {
        for seed in 0..50 {
            let commands = grow(config, seed).commands;
            let rest = read_arm(&config, 0, &commands).unwrap();
            assert_eq!(rest.to_vec(), tail());
        }
    }
}

#[test]
fn the_reals_are_drawn_in_their_ranges() {
    let config = small();
    for seed in 0..20 {
        let mut flake = config.snowflake(seed);
        let mut lengths = vec![12.5];
        let mut event = Event::Proceed;
        while !flake.is_finished() {
            let command = flake.advance(event).unwrap();
            event = Event::Proceed;
            match command {
                Command::Child => {
                    let length: f64 = *lengths.last().unwrap();
                    assert!(length >= 0.5);
                    let child = flake.source.generator.gen_range(0.0..(length * 0.9));
                    assert!(child < length * 0.9);
                    lengths.push(child);
                    event = Event::ChildLength { short: child < 0.5 };
                }
                Command::Place => {
                    lengths.pop();
                }
                _ => {}
            }
        }
        assert_eq!(lengths, vec![12.5]);
    }
}

#[test]
fn a_child_is_drawn_from_the_ranges_of_the_design() {
    let ranges = child_ranges();
    assert_eq!(ranges.reach.numerator as f64 / ranges.reach.denominator as f64, 0.8);
    assert_eq!(ranges.shrink.numerator as f64 / ranges.shrink.denominator as f64, 0.9);
    assert_eq!(ranges.least_turn, 30);
    assert_eq!(ranges.most_turn, 170);
    assert_eq!(snowflake::plan::HALF_TURN_DEGREES, 180);
    assert_eq!(snowflake::plan::FULL_TURN_DEGREES, 360);
    assert_eq!(snowflake::plan::REPLICAS, 6);
}

#[test]
fn advance_draws_the_child_count_itself() {
    let config = large();
    let mut flake = config.snowflake(42);
    assert_eq!(flake.awaits(), Awaited::Proceed);
    assert!(matches!(flake.advance(Event::Proceed), Ok(Command::Arm { depth: 0, .. })));
    assert_eq!(flake.awaits(), Awaited::ChildCount);
    let next = flake.advance(Event::Proceed).unwrap();
    assert!(next == Command::Child || next == Command::Replicate { index: 0, count: 6 });
}

#[test]
fn advance_takes_a_count_that_is_supplied() {
    let config = large();
    let mut flake = config.snowflake(42);
    flake.advance(Event::Proceed).unwrap();
    assert_eq!(flake.advance(Event::ChildCount(5)), Err(StepError::TooManyChildren));
    assert_eq!(flake.advance(Event::ChildLength { short: true }), Err(StepError::Unexpected));
    assert_eq!(flake.advance(Event::ChildCount(0)), Ok(Command::Replicate { index: 0, count: 6 }));
    assert_eq!(flake.nesting(), 0);
}

#[test]
fn step_leaves_the_source_alone() {
    let config = large();
    let mut stepped = config.snowflake(9);
    let mut fresh = config.snowflake(9);
    stepped.step(Event::Proceed).unwrap();
    stepped.step(Event::ChildCount(1)).unwrap();
    stepped.step(Event::ChildLength { short: true }).unwrap();
    assert_eq!(stepped.source.uniform_int(0, 1 << 30), fresh.source.uniform_int(0, 1 << 30));
}

#[test]
fn a_snowflake_begins_one_draw_into_its_stream() {
    let mut flake = large().snowflake(42);
    let mut drawn = Vec::new();
    for _ in 0..3 {
        drawn.push(flake.source.uniform_int(0, 1000));
    }
    assert_eq!(drawn, vec![741, 819, 151]);
    assert_eq!(flake.config().max_depth(), 4);
}

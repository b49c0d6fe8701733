use snowflake::config::Config;
use snowflake::config::ConfigError;
use snowflake::measure::Length;
use snowflake::measure::Ratio;

fn milli(thousandths: u64) -> Length {
    Length::from_thousandths(thousandths)
}

#[test]
fn default_config_is_the_regular_class() {
    let config = Config::default();
    assert_eq!(config.initial_branch_len(), milli(25000));
    assert_eq!(config.max_depth(), 2);
    assert_eq!(config.max_children(), 6);
    assert_eq!(config.max_width(), milli(4000));
    assert_eq!(config.min_width(), milli(2000));
}

#[test]
fn new_keeps_every_parameter() {
    let config = Config::new(milli(60000), 4, 3, milli(8000), milli(1000)).unwrap();
    assert_eq!(config.initial_branch_len(), milli(60000));
    assert_eq!(config.max_depth(), 4);
    assert_eq!(config.max_children(), 3);
    assert_eq!(config.max_width(), milli(8000));
    assert_eq!(config.min_width(), milli(1000));
}

#[test]
fn reversed_widths_are_refused() {
    let made = Config::new(milli(60000), 4, 4, milli(1000), milli(8000));
    assert_eq!(made.err(), Some(ConfigError::WidthsReversed));
}

#[test]
fn a_root_arm_without_length_is_refused() {
    let made = Config::new(milli(0), 4, 4, milli(8000), milli(1000));
    assert_eq!(made.err(), Some(ConfigError::EmptyBranch));
}

#[test]
fn a_narrowest_width_of_zero_is_refused() {
    let made = Config::new(milli(60000), 4, 4, milli(8000), milli(0));
    assert_eq!(made.err(), Some(ConfigError::EmptyWidth));
}

#[test]
fn the_root_arm_is_judged_before_the_widths() {
    let made = Config::new(milli(0), 4, 4, milli(1000), milli(8000));
    assert_eq!(made.err(), Some(ConfigError::EmptyBranch));
    let made = Config::new(milli(1), 4, 4, milli(0), milli(0));
    assert_eq!(made.err(), Some(ConfigError::EmptyWidth));
}

#[test]
fn equal_widths_are_accepted() {
    let made = Config::new(milli(1), 0, 0, milli(3000), milli(3000));
    assert!(made.is_ok());
}

#[test]
fn depth_scale_tapers_toward_the_ceiling() {
    let config = Config::new(milli(60000), 4, 4, milli(8000), milli(1000)).unwrap();
    assert_eq!(config.depth_scale(0), Ratio { numerator: 4, denominator: 4 });
    assert_eq!(config.depth_scale(1), Ratio { numerator: 3, denominator: 4 });
    assert_eq!(config.depth_scale(3), Ratio { numerator: 1, denominator: 4 });
    assert_eq!(config.depth_scale(4), Ratio { numerator: 0, denominator: 4 });
}

#[test]
fn the_cutoff_is_half_a_unit() {
    let short = Config::new(milli(499), 2, 2, milli(2000), milli(1000)).unwrap();
    assert!(short.root_is_short());
    let long = Config::new(milli(500), 2, 2, milli(2000), milli(1000)).unwrap();
    assert!(!long.root_is_short());
}

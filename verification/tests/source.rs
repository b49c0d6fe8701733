use rand::Rng;
use snowflake::source::RandomSource;

#[test]
fn a_seed_fixes_the_stream_of_integers() {
    let mut source = RandomSource::new(42);
    assert_eq!(source.uniform_small(5, 8), 5);
    let mut drawn = Vec::new();
    for _ in 0..8 {
        drawn.push(source.uniform_int(0, 1000));
    }
    assert_eq!(drawn, vec![741, 819, 151, 149, 120, 687, 253, 394]);
}

#[test]
fn a_seed_fixes_the_stream_of_small_integers() {
    let mut source = RandomSource::new(7);
    let mut drawn = Vec::new();
    for _ in 0..8 {
        drawn.push(source.uniform_small(5, 8));
    }
    assert_eq!(drawn, vec![7, 5, 6, 6, 7, 5, 8, 6]);
}

#[test]
fn draws_stay_in_their_closed_range() {
    let mut source = RandomSource::new(2024);
    let mut seen = [false; 4];
    for _ in 0..200 {
        let drawn = source.uniform_int(10, 13);
        assert!((10..=13).contains(&drawn));
        seen[drawn - 10] = true;
    }
    assert_eq!(seen, [true; 4]);
    for _ in 0..200 {
        let drawn = source.uniform_small(-2, 1);
        assert!((-2..=1).contains(&drawn));
    }
}

#[test]
fn a_range_of_one_value_gives_that_value() {
    let mut source = RandomSource::new(1);
    assert_eq!(source.uniform_int(3, 3), 3);
    assert_eq!(source.uniform_int(0, 0), 0);
    assert_eq!(source.uniform_small(8, 8), 8);
}

#[test]
fn two_sources_of_one_seed_draw_alike() {
    let mut first = RandomSource::new(1826);
    let mut second = RandomSource::new(1826);
    for _ in 0..64 {
        assert_eq!(first.uniform_int(0, 1 << 40), second.uniform_int(0, 1 << 40));
    }
    let a: f64 = first.generator.gen_range(0.0..1.0);
    let b: f64 = second.generator.gen_range(0.0..1.0);
    assert_eq!(a, b);
}

#[test]
fn sources_of_other_seeds_draw_otherwise() {
    let mut first = RandomSource::new(1);
    let mut second = RandomSource::new(2);
    let mut same = 0;
    for _ in 0..64 {
        if first.uniform_int(0, 1 << 40) == second.uniform_int(0, 1 << 40) {
            same += 1;
        }
    }
    assert!(same < 4);
}

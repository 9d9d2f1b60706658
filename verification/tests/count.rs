use krt::count::{parse_concurrency, parse_mine_count, parse_mine_prefix, MINE_PREFIX_CEILING, MINE_PREFIX_FLOOR};

/// The lanes of a process that the tests below name as the ceiling of a pool.
const LANES: usize = 16;

#[test]
fn a_mine_of_no_address_fails_at_the_parser() {
    assert_eq!(parse_mine_count("0"), Err("`0` is no count of addresses above zero".to_owned()));
}

#[test]
fn a_count_of_a_mine_reads_a_whole_number_above_zero() {
    assert_eq!(parse_mine_count("8"), Ok(8));
    assert_eq!(parse_mine_count("+3"), Ok(3), "a leading plus reads as the number");
    assert!(parse_mine_count("-1").is_err());
    assert!(parse_mine_count("").is_err());
    assert!(parse_mine_count("8x").is_err());
    assert!(parse_mine_count("99999999999999999999999").is_err(), "a count past the width of a usize");
}

#[test]
fn a_mine_of_a_prefix_below_the_floor_fails_and_names_the_range() {
    let refused = parse_mine_prefix("4").expect_err("a /4 is no near space");
    assert!(refused.contains(&MINE_PREFIX_FLOOR.to_string()), "{refused}");
    assert!(refused.contains(&MINE_PREFIX_CEILING.to_string()), "{refused}");
}

#[test]
fn a_mine_of_a_prefix_above_the_ceiling_fails_and_names_the_range() {
    let refused = parse_mine_prefix("25").expect_err("a /25 holds no whole /24");
    assert_eq!(
        refused,
        "`25` stands outside the block lengths that a mine draws in, which are 8 through 24: a shorter block is most of the address space, and a longer one holds no whole /24"
    );
}

#[test]
fn a_prefix_that_is_no_number_names_the_text() {
    assert_eq!(parse_mine_prefix("sixteen"), Err("`sixteen` is no length of a block".to_owned()));
    assert_eq!(parse_mine_prefix("256"), Err("`256` is no length of a block".to_owned()));
}

#[test]
fn a_prefix_reads_every_length_from_the_floor_to_the_ceiling() {
    assert_eq!(parse_mine_prefix("8"), Ok(8));
    assert_eq!(parse_mine_prefix("16"), Ok(16));
    assert_eq!(parse_mine_prefix("24"), Ok(24));
}

#[test]
fn a_hunt_of_no_destination_at_once_fails_at_the_parser() {
    assert_eq!(
        parse_concurrency("0", LANES),
        Err("`0` is not a number of destinations from 1 to 16".to_owned())
    );
}

#[test]
fn a_hunt_of_more_destinations_at_once_than_lanes_fails_and_names_the_ceiling() {
    let refused = parse_concurrency("17", LANES).expect_err("a pool above the lanes");
    assert!(refused.contains(&LANES.to_string()), "{refused}");
    assert_eq!(
        refused,
        "`17` is above the 16 destinations that one hunt traces at one moment: two destinations of one lane read each other's answers"
    );
}

#[test]
fn a_pool_reads_every_count_from_one_to_the_lanes() {
    assert_eq!(parse_concurrency("1", LANES), Ok(1));
    assert_eq!(parse_concurrency("16", LANES), Ok(16));
    assert!(parse_concurrency("many", LANES).is_err());
}

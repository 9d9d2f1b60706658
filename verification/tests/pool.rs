use krt::hunt::{Flight, HuntFailure, Pool};
use krt::period::Period;
use krt::record::{EndReason, RunId};
use krt::session::{TraceFailure, EXIT_TRACER_FAILED};
use krt::summary::{Bounds, PathKind, Score};

/// The bounds of every hunt below.
const BOUNDS: Bounds = Bounds { rounds: 2, max_targets: 5 };

fn score(addr: u32, kind: PathKind) -> Score {
    Score {
        addr,
        host: None,
        run: RunId::from("2026-08-18T12:00:00.000Z"),
        kind,
        length: 5,
        time_key: Some(20.0f64.to_bits()),
        avg_cell: "20.0".to_owned(),
        loss_cell: "0.0%".to_owned(),
        gaps: 0,
    }
}

/// Starts destinations until the pool holds no more room, as the loop of a
/// hunt does, and answers the destinations that it started.
fn fill(pool: &mut Pool, next: &mut u32, stopped: bool) -> Vec<u32> {
    let mut started = Vec::new();
    while pool.room(stopped) {
        let Some(_lane) = pool.lend() else { break };
        *next += 1;
        pool.start(*next);
        started.push(*next);
    }
    started
}

#[test]
fn a_hunt_starts_the_destinations_of_its_pool_at_once() {
    let mut pool = Pool::new(BOUNDS, 3, false);
    let mut next = 0;
    assert_eq!(fill(&mut pool, &mut next, false), [1, 2, 3]);
}

#[test]
fn a_hunt_holds_no_more_destinations_at_once_than_its_pool() {
    let mut pool = Pool::new(BOUNDS, 2, false);
    let mut next = 0;
    assert_eq!(fill(&mut pool, &mut next, false).len(), 2);
    assert!(!pool.room(false), "a full pool holds no room");
}

#[test]
fn the_first_destination_takes_the_first_lane() {
    let mut pool = Pool::new(BOUNDS, 3, false);
    assert_eq!(pool.lend(), Some(0));
    pool.start(7);
    assert_eq!(pool.lend(), Some(1));
}

#[test]
fn no_two_destinations_of_one_moment_hold_one_lane() {
    let mut pool = Pool::new(Bounds { rounds: 10, max_targets: 10 }, 3, false);
    let mut next = 0;
    fill(&mut pool, &mut next, false);
    pool.close(1, EndReason::Rounds, score(2, PathKind::Partial));
    fill(&mut pool, &mut next, false);
    let gone: Vec<Flight> = pool.abandon();
    let mut lanes: Vec<usize> = gone.iter().map(|flight| flight.lane).collect();
    lanes.sort_unstable();
    assert_eq!(lanes, [0, 1, 2], "every lane stands once: {gone:?}");
}

#[test]
fn a_hunt_takes_the_lane_of_a_destination_back_when_it_stops() {
    let mut pool = Pool::new(Bounds { rounds: 10, max_targets: 10 }, 1, false);
    let mut next = 0;
    fill(&mut pool, &mut next, false);
    assert!(!pool.room(false));
    pool.close(0, EndReason::Rounds, score(1, PathKind::Partial));
    assert!(pool.room(false), "the lane came back");
    assert_eq!(pool.lend(), Some(0));
}

#[test]
fn a_hunt_stops_after_the_number_of_destinations_that_answered() {
    let mut pool = Pool::new(BOUNDS, 1, false);
    let mut next = 0;
    for _ in 0..2 {
        fill(&mut pool, &mut next, false);
        pool.close(0, EndReason::Rounds, score(next, PathKind::Reached));
    }
    assert!(!pool.room(false), "two answers stop a hunt that wants two");
    let summary = pool.finish(Period { secs: 1, millis: 0 });
    assert!(summary.lines().last().unwrap().starts_with("2/2 reached   2/5 targets   0 partial"));
}

#[test]
fn a_hunt_gives_up_after_the_targets_that_its_bounds_let_it_trace() {
    let mut pool = Pool::new(Bounds { rounds: 8, max_targets: 3 }, 2, false);
    let mut next = 0;
    fill(&mut pool, &mut next, false);
    pool.close(0, EndReason::Duration, score(1, PathKind::Partial));
    pool.close(0, EndReason::Duration, score(2, PathKind::Partial));
    assert_eq!(fill(&mut pool, &mut next, false), [3], "one destination is left under the cap");
    assert!(!pool.room(false));
}

#[test]
fn a_hunt_stops_when_the_draw_runs_out_of_addresses() {
    let mut pool = Pool::new(BOUNDS, 2, false);
    assert!(pool.lend().is_some());
    pool.give_back(true);
    assert!(!pool.room(false), "a drawn out hunt starts nothing");
    assert_eq!(pool.lend(), Some(0), "and the lane stands free again");
}

#[test]
fn a_tracer_that_refuses_gives_its_lane_back_and_counts_nowhere() {
    let mut pool = Pool::new(BOUNDS, 1, false);
    assert_eq!(pool.lend(), Some(0));
    pool.give_back(false);
    assert!(pool.room(false), "a refused tracer leaves the hunt drawing");
    let summary = pool.finish(Period { secs: 1, millis: 0 });
    assert!(summary.lines().last().unwrap().starts_with("0/2 reached   0/5 targets"));
}

#[test]
fn a_user_who_stopped_the_hunt_starts_no_destination() {
    let pool = Pool::new(BOUNDS, 2, false);
    assert!(!pool.room(true));
}

#[test]
fn a_destination_that_the_user_cut_short_takes_no_score_and_still_counts() {
    let mut pool = Pool::new(BOUNDS, 1, false);
    let mut next = 0;
    fill(&mut pool, &mut next, false);
    pool.close(0, EndReason::Quit, score(1, PathKind::Reached));
    let summary = pool.finish(Period { secs: 1, millis: 0 });
    assert_eq!(summary.lines().last().unwrap(), "0/2 reached   1/5 targets   0 partial   1s");
}

#[test]
fn an_abandoned_destination_takes_no_score_and_still_counts() {
    let mut pool = Pool::new(BOUNDS, 2, false);
    let mut next = 0;
    fill(&mut pool, &mut next, false);
    let gone = pool.abandon();
    assert_eq!(gone.iter().map(|flight| flight.target).collect::<Vec<_>>(), [1, 2]);
    let summary = pool.finish(Period { secs: 1, millis: 0 });
    assert_eq!(summary.lines().last().unwrap(), "0/2 reached   2/5 targets   0 partial   1s");
}

#[test]
fn a_fault_in_front_of_the_loop_carries_no_summary() {
    let failure = TraceFailure::new("the tracer did not start", EXIT_TRACER_FAILED);
    let stopped = HuntFailure::from(failure.clone());
    assert!(stopped.summary.is_none());
    assert_eq!(stopped.failure, failure);
}

/// Fills a pool from a draw, as the loop of a hunt does when every tracer
/// starts, and answers the destinations in the order they started.
fn fill_from(pool: &mut Pool, draw: &mut krt::draw::Draw) -> Vec<u32> {
    let mut started = Vec::new();
    while let Some((_lane, pick)) = pool.next_start(draw, false) {
        pool.start(pick.addr);
        started.push(pick.addr);
    }
    started
}

fn routable(last: u8) -> u32 {
    krt::addr::ipv4(93, 184, 216, last)
}

#[test]
fn a_hunt_traces_the_addresses_that_the_draw_gives_in_the_order_it_gives_them() {
    let mut pool = Pool::new(Bounds { rounds: 10, max_targets: 10 }, 3, false);
    let mut draw = krt::draw::Draw::new(vec![routable(3), routable(1), routable(2), routable(9)]);
    assert_eq!(fill_from(&mut pool, &mut draw), [routable(3), routable(1), routable(2)]);
}

#[test]
fn a_hunt_whose_draw_ran_out_draws_no_further_address() {
    let mut pool = Pool::new(Bounds { rounds: 10, max_targets: 10 }, 3, false);
    let mut draw = krt::draw::Draw::new(vec![routable(1)]);
    assert_eq!(fill_from(&mut pool, &mut draw), [routable(1)]);
    assert!(!pool.room(false), "the pool stands drawn out");
    pool.close(0, EndReason::Rounds, score(routable(1), PathKind::Partial));
    assert!(pool.next_start(&mut draw, false).is_none());
}

#[test]
fn a_tracer_that_refuses_hands_its_lane_back_to_the_next_destination() {
    let mut pool = Pool::new(Bounds { rounds: 10, max_targets: 10 }, 1, false);
    let mut draw = krt::draw::Draw::new(vec![routable(1), routable(2)]);
    let (lane, pick) = pool.next_start(&mut draw, false).expect("the pool has room");
    assert_eq!((lane, pick.addr), (0, routable(1)));
    pool.give_back(false);
    let (lane, pick) = pool.next_start(&mut draw, false).expect("the lane came back");
    assert_eq!((lane, pick.addr), (0, routable(2)));
}

#[test]
fn a_hunt_holds_its_pool_full_until_the_rounds_it_wants_answer() {
    let mut pool = Pool::new(Bounds { rounds: 2, max_targets: 10 }, 3, false);
    let mut next = 0;
    assert_eq!(fill(&mut pool, &mut next, false).len(), 3, "the pool fills past the rounds that are left");
    pool.close(0, EndReason::Rounds, score(1, PathKind::Reached));
    assert!(pool.room(false), "one round is still wanted, and the pool fills again");
    assert_eq!(fill(&mut pool, &mut next, false).len(), 1);
}

#[test]
fn a_destination_that_answered_nothing_costs_no_round() {
    let mut pool = Pool::new(Bounds { rounds: 1, max_targets: 10 }, 1, false);
    let mut next = 0;
    fill(&mut pool, &mut next, false);
    pool.close(0, EndReason::Duration, score(1, PathKind::Partial));
    assert!(pool.room(false), "a partial path leaves the round that the hunt wants");
}

#[test]
fn the_summary_counts_the_destinations_that_the_hunt_started() {
    let mut pool = Pool::new(Bounds { rounds: 8, max_targets: 10 }, 3, false);
    let mut next = 0;
    fill(&mut pool, &mut next, false);
    pool.close(2, EndReason::Rounds, score(3, PathKind::Reached));
    pool.close(0, EndReason::Quit, score(1, PathKind::Reached));
    let summary = pool.finish(Period { secs: 1, millis: 0 });
    assert_eq!(summary.lines().last().unwrap(), "1/8 reached   3/10 targets   0 partial   1s");
}

/// The summary of a hunt of one destination whose only path was partial.
fn partial_hunt(include_partial: bool) -> krt::summary::Summary {
    let mut pool = Pool::new(BOUNDS, 1, include_partial);
    let mut next = 0;
    fill(&mut pool, &mut next, false);
    pool.close(0, EndReason::Rounds, score(1, PathKind::Partial));
    pool.finish(Period { secs: 1, millis: 0 })
}

#[test]
fn the_switch_for_partial_paths_reaches_the_ranking_of_the_pool() {
    assert!(!partial_hunt(true).ranked().is_empty(), "a partial path competes when the hunt lets it");
    assert!(partial_hunt(false).ranked().is_empty(), "and stays out of the table when it does not");
}

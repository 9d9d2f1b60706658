use krt::addr::{ipv4, Addr};
use krt::period::Period;
use krt::record::{Hop, NameRecord, RoundRecord, RunId, Stamp, TtlRange};
use krt::score::Scorer;
use krt::summary::{Bounds, PathKind, Score, Summary, NOTHING_TO_RANK};

/// The identifier of the run that every scored trace of a test recorded.
const RUN: &str = "2026-08-18T12:00:00.123Z";

/// The first TTL that every scored trace of a test probes.
const FIRST_TTL: u8 = 1;

/// The last TTL that every scored trace of a test probes.
const MAX_TTL: u8 = 20;

/// The address of the destination of every scored trace of a test.
const DESTINATION: &str = "93.184.216.34";

/// The address of the first hop of every scored trace of a test.
const FIRST_HOP: &str = "10.0.0.1";

/// The address of the hop where a partial path of a test ends.
const LAST_ANSWER: &str = "72.14.200.1";

/// The name that a reverse lookup gives the destination of a test.
const DESTINATION_NAME: &str = "example.com";

fn address(text: &str) -> u32 {
    let octets: Vec<u8> =
        text.split('.').map(|part| part.parse().expect("the test address must parse")).collect();
    ipv4(octets[0], octets[1], octets[2], octets[3])
}

fn round(hops: &[(u8, &str, f64)]) -> RoundRecord {
    RoundRecord {
        run: RunId::from(RUN),
        seq: 1,
        ts: Stamp { nanos: 0 },
        dur_ms: 1000,
        ttl_range: TtlRange::new(FIRST_TTL, MAX_TTL).expect("the range runs forward"),
        reached: false,
        hops: hops
            .iter()
            .map(|(ttl, addr, rtt)| Hop {
                ttl: *ttl,
                addr: Addr::V4(address(addr)),
                rtt_bits: rtt.to_bits(),
                icmp: "time_exceeded".to_owned(),
            })
            .collect(),
    }
}

/// The score of one destination whose address, run, rounds, and names a test
/// scripts.
///
/// The test reads the mean time and the loss of the last TTL of the path off
/// its own script, as the caller of a scorer does, and writes their cells.
fn traced(destination: &str, run: &str, rounds: &[&[(u8, &str, f64)]], names: &[(&str, &str)]) -> Score {
    let mut scorer = Scorer::new(address(destination), RunId::from(run), FIRST_TTL);
    for hops in rounds {
        scorer.round(&round(hops));
    }
    let records: Vec<NameRecord> = names
        .iter()
        .map(|(addr, host)| NameRecord {
            run: RunId::from(run),
            ts: Stamp { nanos: 0 },
            addr: Addr::V4(address(addr)),
            host: (*host).to_owned(),
        })
        .collect();
    scorer.names(&records);
    let (_, length) = scorer.path();
    let times: Vec<f64> = rounds
        .iter()
        .flat_map(|hops| hops.iter())
        .filter(|(ttl, _, _)| *ttl == length)
        .map(|(_, _, rtt)| *rtt)
        .collect();
    let (sent, recv) = scorer.counts_at(length);
    let avg = (!times.is_empty()).then(|| times.iter().sum::<f64>() / times.len() as f64);
    let loss = (sent > 0).then(|| (sent - recv) as f64 / sent as f64 * 100.0);
    scorer.score(
        avg.map(f64::to_bits),
        avg.map_or_else(|| "-".to_owned(), |v| format!("{v:.1}")),
        loss.map_or_else(|| "-".to_owned(), |v| format!("{v:.1}%")),
    )
}

fn score_of(rounds: &[&[(u8, &str, f64)]]) -> Score {
    traced(DESTINATION, RUN, rounds, &[])
}

#[test]
fn a_destination_that_answered_gives_a_reached_path() {
    let score = score_of(&[&[(1, FIRST_HOP, 1.0), (5, DESTINATION, 20.0)]]);
    assert_eq!(score.kind, PathKind::Reached);
}

#[test]
fn the_length_of_a_reached_path_is_the_ttl_that_the_destination_answered_at() {
    let score = score_of(&[&[(1, FIRST_HOP, 1.0), (5, DESTINATION, 20.0)]]);
    assert_eq!(score.length, 5);
}

#[test]
fn a_destination_that_answered_at_two_ttls_takes_the_shorter_path() {
    let score =
        score_of(&[&[(6, DESTINATION, 20.0)], &[(5, DESTINATION, 21.0)], &[(6, DESTINATION, 22.0)]]);
    assert_eq!(score.length, 5);
}

#[test]
fn a_destination_that_answered_nothing_gives_a_partial_path() {
    let score = score_of(&[&[(1, FIRST_HOP, 1.0), (4, LAST_ANSWER, 9.0)]]);
    assert_eq!(score.kind, PathKind::Partial);
}

#[test]
fn the_length_of_a_partial_path_is_the_highest_ttl_that_answered() {
    let score = score_of(&[&[(1, FIRST_HOP, 1.0), (4, LAST_ANSWER, 9.0)]]);
    assert_eq!(score.length, 4);
}

#[test]
fn a_destination_that_nothing_answered_for_gives_a_partial_path_of_no_length() {
    let score = score_of(&[&[]]);
    assert_eq!((score.kind, score.length), (PathKind::Partial, 0));
}

#[test]
fn the_loss_of_the_last_hop_reads_the_rounds_that_probed_it_and_the_answers_it_gave() {
    let mut scorer = Scorer::new(address(DESTINATION), RunId::from(RUN), FIRST_TTL);
    scorer.round(&round(&[(5, DESTINATION, 10.0)]));
    scorer.round(&round(&[(1, FIRST_HOP, 1.0)]));
    assert_eq!(scorer.path(), (PathKind::Reached, 5));
    assert_eq!(scorer.counts_at(5), (2, 1), "two rounds probed the TTL and one answered");
    assert_eq!(scorer.counts_at(MAX_TTL + 1), (0, 0), "no round probed past its range");
}

#[test]
fn the_gaps_count_the_ttls_inside_the_path_that_answered_nothing() {
    let score = score_of(&[&[(1, FIRST_HOP, 1.0), (5, DESTINATION, 20.0)]]);
    assert_eq!(score.gaps, 3);
}

#[test]
fn a_ttl_past_the_end_of_the_path_counts_as_no_gap() {
    let score = score_of(&[&[(1, FIRST_HOP, 1.0), (4, LAST_ANSWER, 9.0)]]);
    assert_eq!(score.gaps, 2);
}

#[test]
fn a_path_of_no_length_holds_no_gap() {
    assert_eq!(score_of(&[&[]]).gaps, 0);
}

#[test]
fn the_name_of_the_destination_reaches_the_score() {
    let score = traced(DESTINATION, RUN, &[&[(5, DESTINATION, 20.0)]], &[(DESTINATION, DESTINATION_NAME)]);
    assert_eq!(score.host.as_deref(), Some(DESTINATION_NAME));
}

#[test]
fn a_score_of_a_run_that_read_no_name_holds_none() {
    assert_eq!(score_of(&[&[(5, DESTINATION, 20.0)]]).host, None);
}

#[test]
fn the_name_of_another_address_does_not_reach_the_score() {
    let score = traced(DESTINATION, RUN, &[&[(5, DESTINATION, 20.0)]], &[(FIRST_HOP, "gateway.lan")]);
    assert_eq!(score.host, None);
}

#[test]
fn the_score_names_the_run_that_recorded_the_trace() {
    assert_eq!(score_of(&[&[]]).run, RunId::from(RUN));
}

#[test]
fn the_score_names_the_address_that_the_hunt_traced() {
    assert_eq!(score_of(&[&[]]).addr, address(DESTINATION));
}

#[test]
fn the_screen_of_a_destination_asks_for_no_stop() {
    let mut scorer = Scorer::new(address(DESTINATION), RunId::from(RUN), FIRST_TTL);
    assert!(!scorer.poll());
}

const NEAR: &str = "93.184.216.34";
const NEAR_RUN: &str = "2026-08-18T12:00:00.123Z";
const FAR: &str = "72.14.200.1";
const FAR_RUN: &str = "2026-08-18T12:01:00.000Z";
const QUIET: &str = "1.1.1.1";
const QUIET_RUN: &str = "2026-08-18T12:02:00.000Z";

/// The time that the hunt of every summary test took.
const ELAPSED: Period = Period { secs: 192, millis: 0 };

/// The bounds of the hunt of every summary test.
const SUMMARY_BOUNDS: Bounds = Bounds { rounds: 8, max_targets: 128 };

/// The number of destinations that the hunt of [`a_hunt`] started.
const THREE_TARGETS: u64 = 3;

const SHORTEST: &str = "shortest";
const LONGEST: &str = "longest";
const FASTEST: &str = "fastest";
const SLOWEST: &str = "slowest";
const PARTIAL: &str = "partial";

fn a_hunt(include_partial: bool) -> Summary {
    let scores = vec![
        traced(NEAR, NEAR_RUN, &[&[(1, FIRST_HOP, 1.0), (5, NEAR, 20.0)]], &[(NEAR, DESTINATION_NAME)]),
        traced(FAR, FAR_RUN, &[&[(1, FIRST_HOP, 1.0), (18, FAR, 85.0)]], &[]),
        traced(QUIET, QUIET_RUN, &[&[(1, FIRST_HOP, 1.0), (4, LAST_ANSWER, 9.0)]], &[]),
    ];
    Summary::new(scores, ELAPSED, THREE_TARGETS, SUMMARY_BOUNDS, include_partial)
}

fn row(summary: &Summary, label: &str) -> String {
    summary
        .lines()
        .into_iter()
        .find(|line| line.trim_start().starts_with(label))
        .unwrap_or_else(|| panic!("the summary must hold the `{label}` row"))
}

fn counts(summary: &Summary) -> String {
    summary.lines().last().cloned().expect("the summary must hold the line that counts the hunt")
}

#[test]
fn the_shortest_row_names_the_destination_of_the_shortest_reached_path() {
    assert!(row(&a_hunt(false), SHORTEST).contains(NEAR));
}

#[test]
fn the_longest_row_names_the_destination_of_the_longest_reached_path() {
    assert!(row(&a_hunt(false), LONGEST).contains(FAR));
}

#[test]
fn the_fastest_row_names_the_destination_of_the_smallest_mean_time() {
    assert!(row(&a_hunt(false), FASTEST).contains(NEAR));
}

#[test]
fn the_slowest_row_names_the_destination_of_the_largest_mean_time() {
    assert!(row(&a_hunt(false), SLOWEST).contains(FAR));
}

#[test]
fn a_partial_path_competes_for_no_row_by_default() {
    let summary = a_hunt(false);
    assert!(!row(&summary, SHORTEST).contains(QUIET));
    assert!(!row(&summary, FASTEST).contains(QUIET));
}

#[test]
fn a_partial_path_that_the_hunt_included_takes_the_shortest_row() {
    assert!(row(&a_hunt(true), SHORTEST).contains(QUIET));
}

#[test]
fn a_partial_path_that_the_hunt_included_takes_the_fastest_row() {
    assert!(row(&a_hunt(true), FASTEST).contains(QUIET));
}

#[test]
fn the_row_of_a_partial_path_says_that_the_path_is_partial() {
    assert!(row(&a_hunt(true), SHORTEST).contains(PARTIAL));
}

#[test]
fn the_row_of_a_reached_path_says_that_the_path_is_reached() {
    assert!(row(&a_hunt(false), SHORTEST).contains("reached"));
}

#[test]
fn a_destination_that_holds_two_rows_stands_in_both_of_them() {
    let summary = a_hunt(false);
    assert!(row(&summary, SHORTEST).contains(NEAR));
    assert!(row(&summary, FASTEST).contains(NEAR));
}

#[test]
fn a_row_names_the_run_that_recorded_the_trace() {
    assert!(row(&a_hunt(false), SHORTEST).contains(NEAR_RUN));
}

#[test]
fn a_row_names_the_name_of_the_address_when_a_lookup_gave_one() {
    assert!(row(&a_hunt(false), SHORTEST).contains(DESTINATION_NAME));
}

#[test]
fn a_row_of_an_address_that_no_lookup_named_holds_the_address_alone() {
    let line = row(&a_hunt(false), LONGEST);
    assert!(line.contains(FAR));
    assert!(!line.contains('('), "the row holds no name: {line}");
}

#[test]
fn the_counts_hold_the_rounds_the_targets_the_partial_and_the_wall_time() {
    assert_eq!(counts(&a_hunt(false)), "2/8 reached   3/128 targets   1 partial   192s");
}

#[test]
fn a_summary_of_no_ranked_path_says_so_and_still_counts_the_hunt() {
    let scores = vec![traced(QUIET, QUIET_RUN, &[&[(1, FIRST_HOP, 1.0)]], &[])];
    let summary = Summary::new(scores, ELAPSED, 1, SUMMARY_BOUNDS, false);
    let lines = summary.lines();
    assert!(
        lines.iter().any(|line| line.contains(NOTHING_TO_RANK)),
        "the summary must say that it ranked nothing: {lines:?}"
    );
    assert_eq!(counts(&summary), "0/8 reached   1/128 targets   1 partial   192s");
}

/// The summary of a hunt of three destinations.
const GOLDEN_SUMMARY: [&str; 7] = [
    " Row       Host                         Len  Path      Avg  Loss%  Gaps  Run",
    " shortest  example.com (93.184.216.34)    5  reached  20.0   0.0%     3  2026-08-18T12:00:00.123Z",
    " longest   72.14.200.1                   18  reached  85.0   0.0%    16  2026-08-18T12:01:00.000Z",
    " fastest   example.com (93.184.216.34)    5  reached  20.0   0.0%     3  2026-08-18T12:00:00.123Z",
    " slowest   72.14.200.1                   18  reached  85.0   0.0%    16  2026-08-18T12:01:00.000Z",
    "",
    "2/8 reached   3/128 targets   1 partial   192s",
];

#[test]
fn the_summary_reads_as_the_table_of_the_design() {
    assert_eq!(a_hunt(false).lines(), GOLDEN_SUMMARY);
}

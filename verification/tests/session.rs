use krt::period::Period;
use krt::record::EndReason;
use krt::session::{
    closing_line, display_of, graphics_of, name_grace, paint_of, stop_reason, Display, Outcome,
    Paint,
};

/// The time that one reverse lookup of the system resolver takes at most.
const RESOLVER_TIMEOUT: Period = Period { secs: 5, millis: 0 };

#[test]
fn the_grace_of_the_names_outlives_every_lookup_that_can_still_answer() {
    let timeout = RESOLVER_TIMEOUT;
    let grace = name_grace(timeout);
    assert!(
        grace.to_duration() >= timeout.to_duration(),
        "the run gives its names {grace:?}, and one lookup takes up to {timeout:?}"
    );
}

#[test]
fn a_run_shows_the_table_only_under_a_terminal_that_the_headless_flag_left_alone() {
    assert_eq!(display_of(false, true), Display::Table);
    assert_eq!(display_of(true, true), Display::Headless);
    assert_eq!(display_of(false, false), Display::Headless);
    assert_eq!(display_of(true, false), Display::Headless);
}

/// The pixel size of one character cell of a common terminal.
const CELL: (u32, u32) = (10, 20);

#[test]
fn a_run_that_asked_for_the_image_on_a_terminal_that_draws_one_takes_the_size_of_a_cell() {
    assert_eq!(graphics_of(true, true, Some(CELL)), Some(CELL));
}

#[test]
fn a_run_that_asked_for_no_image_draws_the_block_elements() {
    assert_eq!(graphics_of(false, true, Some(CELL)), None);
}

#[test]
fn a_terminal_that_draws_no_image_draws_the_block_elements() {
    assert_eq!(graphics_of(true, false, Some(CELL)), None);
}

#[test]
fn a_terminal_that_reports_no_pixel_size_draws_the_block_elements() {
    assert_eq!(graphics_of(true, true, None), None);
}

#[test]
fn a_run_paints_the_table_only_for_a_reader_who_set_no_color_on_nothing() {
    assert_eq!(paint_of(true), Paint::Plain);
    assert_eq!(paint_of(false), Paint::Colored);
}

/// Every reason that closes a run, for the table of the closing words.
const EVERY_END_REASON: [EndReason; 4] =
    [EndReason::Quit, EndReason::Duration, EndReason::Rounds, EndReason::Error];

#[test]
fn each_reason_that_closes_a_run_carries_its_own_words() {
    assert_eq!(stop_reason(EndReason::Quit), "the user stopped the run");
    assert_eq!(stop_reason(EndReason::Duration), "the time limit stopped the run");
    assert_eq!(stop_reason(EndReason::Rounds), "the round limit stopped the run");
    assert_eq!(stop_reason(EndReason::Error), "a fault stopped the run");
}

#[test]
fn no_two_reasons_share_their_words() {
    let mut words: Vec<&str> = EVERY_END_REASON.iter().copied().map(stop_reason).collect();
    words.sort_unstable();
    let count = words.len();
    words.dedup();
    assert_eq!(words.len(), count, "each reason carries its own words");
}

#[test]
fn the_closing_line_names_the_rounds_the_file_and_the_reason() {
    let outcome = Outcome { rounds: 3, reason: EndReason::Rounds };
    assert_eq!(
        closing_line(&outcome, "1.2.3.4-example.com.jsonl"),
        "recorded 3 rounds  1.2.3.4-example.com.jsonl  the round limit stopped the run"
    );
}

#[test]
fn the_closing_line_of_one_round_keeps_the_singular_name() {
    let outcome = Outcome { rounds: 1, reason: EndReason::Quit };
    assert_eq!(
        closing_line(&outcome, "trace.jsonl"),
        "recorded 1 round  trace.jsonl  the user stopped the run"
    );
}

#[test]
fn the_closing_line_of_no_round_takes_the_plural_name() {
    let outcome = Outcome { rounds: 0, reason: EndReason::Error };
    assert_eq!(
        closing_line(&outcome, "trace.jsonl"),
        "recorded 0 rounds  trace.jsonl  a fault stopped the run"
    );
}

use krt::addr::{ipv4, Addr, Family};
use krt::record::{
    EndReason, EndRecord, Multipath, Privilege, Protocol, Record, Recording, RoundRecord, RunConfig,
    RunId, RunRecord, SourceKind, SourceLabel, Stamp, Target, Truncated, TtlRange,
};
use krt::session::{cut_warning, file_name, fold_run, folded_run_message, no_run_message};

const RUN: &str = "2026-08-18T12:00:00.123Z";
const OTHER_RUN: &str = "2026-08-18T14:00:00.000Z";
const PATH: &str = "runs/1.2.3.4-example.com.jsonl";

fn run_record(id: &str) -> Record {
    Record::Run(RunRecord {
        run: RunId::from(id),
        krt: "0.1.0".to_owned(),
        source: SourceLabel { addr: Addr::V4(ipv4(1, 2, 3, 4)), kind: SourceKind::Public },
        target: Target {
            arg: "example.com".to_owned(),
            addr: Addr::V4(ipv4(93, 184, 216, 34)),
            family: Family::Ipv4,
        },
        config: RunConfig {
            interval_ms: 1000,
            protocol: Protocol::Icmp,
            first_ttl: 1,
            max_ttl: 30,
            multipath: Multipath::Classic,
            privilege: Privilege::Unprivileged,
            dns: true,
        },
        host: "tims-mac".to_owned(),
    })
}

fn round_record(id: &str, seq: u64) -> Record {
    Record::Round(RoundRecord {
        run: RunId::from(id),
        seq,
        ts: Stamp { nanos: 0 },
        dur_ms: 1000,
        ttl_range: TtlRange::new(1, 3).expect("the range runs forward"),
        reached: false,
        hops: Vec::new(),
    })
}

fn end_record(id: &str) -> Record {
    Record::End(EndRecord { run: RunId::from(id), ts: Stamp { nanos: 0 }, rounds: 1, reason: EndReason::Quit })
}

fn two_runs() -> Recording {
    Recording::new(
        vec![
            run_record(RUN),
            round_record(RUN, 1),
            end_record(RUN),
            run_record(OTHER_RUN),
            round_record(OTHER_RUN, 7),
            end_record(OTHER_RUN),
        ],
        None,
    )
}

#[test]
fn a_replay_folds_the_last_run_when_no_run_is_named() {
    let recording = two_runs();
    let folded = fold_run(&recording, PATH, None).expect("the file holds a run");
    assert_eq!(folded.run.id(), &RunId::from(OTHER_RUN));
    assert_eq!(folded.run.rounds().iter().map(|round| round.seq).collect::<Vec<_>>(), [7]);
    assert_eq!(
        folded.note.as_deref(),
        Some("runs/1.2.3.4-example.com.jsonl: the file holds 2 runs. This frame folds the run `2026-08-18T14:00:00.000Z`.")
    );
}

#[test]
fn a_replay_folds_the_run_that_the_flag_names() {
    let recording = two_runs();
    let folded = fold_run(&recording, PATH, Some(RUN)).expect("the file holds the run");
    assert_eq!(folded.run.id(), &RunId::from(RUN));
}

#[test]
fn a_replay_of_a_file_of_one_run_carries_no_note() {
    let recording = Recording::new(vec![run_record(RUN), round_record(RUN, 1)], None);
    let folded = fold_run(&recording, PATH, None).expect("the file holds a run");
    assert_eq!(folded.note, None);
}

#[test]
fn a_run_that_the_file_does_not_hold_names_every_run_it_does_hold() {
    let recording = two_runs();
    let reason = fold_run(&recording, PATH, Some("2020-01-01T00:00:00.000Z")).expect_err("no such run");
    assert_eq!(
        reason,
        "runs/1.2.3.4-example.com.jsonl: the file holds no run `2020-01-01T00:00:00.000Z`. The runs of this file are `2026-08-18T12:00:00.123Z`, `2026-08-18T14:00:00.000Z`"
    );
}

#[test]
fn a_file_of_no_run_stops_the_message_at_the_reason() {
    let recording = Recording::new(Vec::new(), None);
    assert_eq!(
        fold_run(&recording, PATH, None).expect_err("no run"),
        "runs/1.2.3.4-example.com.jsonl: the file holds no run"
    );
    assert_eq!(
        no_run_message(PATH, Some(RUN), &Vec::new()),
        "runs/1.2.3.4-example.com.jsonl: the file holds no run"
    );
}

#[test]
fn the_note_of_a_folded_run_keeps_the_singular_name() {
    assert_eq!(
        folded_run_message("a.jsonl", 1, &RunId::from(RUN)),
        "a.jsonl: the file holds 1 run. This frame folds the run `2026-08-18T12:00:00.123Z`."
    );
}

#[test]
fn the_warning_of_a_cut_file_names_the_line_and_the_byte_count() {
    assert_eq!(
        cut_warning("a.jsonl", Some(Truncated::new(2, 13))).as_deref(),
        Some("a.jsonl: line 2 is cut short at 13 bytes. The records before the cut still read.")
    );
    assert_eq!(cut_warning("a.jsonl", None), None);
}

#[test]
fn the_name_of_a_file_drops_its_directory() {
    assert_eq!(file_name(PATH), "1.2.3.4-example.com.jsonl");
    assert_eq!(file_name("trace.jsonl"), "trace.jsonl");
    assert_eq!(file_name("/"), "/", "a path of no name keeps itself");
}

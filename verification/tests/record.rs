use krt::addr::{ipv4, Addr, Family};
use krt::record::{
    next_moment, EndReason, EndRecord, Hop, Multipath, NameRecord, Next, Privilege, Protocol,
    ReadError, Reader, Record, Recording, RoundRecord, Run, RunConfig, RunId, RunRecord,
    SourceKind, SourceLabel, Stamp, Target, Truncated, TtlRange,
};

/// The identifier of the run of the design.
const RUN: &str = "2026-08-18T12:00:00.123Z";

/// The moment of that identifier, as nanoseconds since 1970.
const RUN_NANOS: i64 = 1_787_054_400_123_000_000;

/// The identifier of a second run.
const OTHER_RUN: &str = "2026-08-18T14:00:00.000Z";

/// The identifier of a run that no file of the tests holds.
const ABSENT_RUN: &str = "2020-01-01T00:00:00.000Z";

/// The name of the first hop.
const FIRST_HOST: &str = "router.lan";

/// The name of the first hop of the second run.
const OTHER_HOST: &str = "core.example.net";

/// A line whose `type` this build does not know.
const WEATHER_LINE: &str = r#"{"type":"weather","sky":"clear"}"#;

/// A line that no parse reads.
const NOT_JSON_LINE: &str = "this is not json";

/// Two bytes that are no UTF-8 text.
const NOT_TEXT: [u8; 2] = [0xff, 0xfe];

/// The path that every walk of a test names.
const PATH: &str = "runs/trace.jsonl";

fn run_record(id: &str) -> Record {
    Record::Run(RunRecord {
        run: RunId::from(id),
        krt: "0.1.0 (abc1234, clean)".to_owned(),
        source: SourceLabel { addr: Addr::V4(ipv4(1, 2, 3, 4)), kind: SourceKind::Public },
        target: Target {
            arg: "example.com".to_owned(),
            addr: Addr::V4(ipv4(93, 184, 216, 34)),
            family: Family::Ipv4,
        },
        config: RunConfig {
            interval_ms: 1000,
            protocol: Protocol::Icmp,
            first_ttl: 1,
            max_ttl: 30,
            multipath: Multipath::Classic,
            privilege: Privilege::Unprivileged,
            dns: true,
        },
        host: "tims-mac".to_owned(),
    })
}

fn name_record(id: &str, host: &str) -> Record {
    Record::Name(NameRecord {
        run: RunId::from(id),
        ts: Stamp { nanos: RUN_NANOS + 2_000_000_000 },
        addr: Addr::V4(ipv4(192, 168, 1, 1)),
        host: host.to_owned(),
    })
}

fn round_record(id: &str, seq: u64) -> Record {
    Record::Round(RoundRecord {
        run: RunId::from(id),
        seq,
        ts: Stamp { nanos: RUN_NANOS + 3_000_000_000 },
        dur_ms: 1004,
        ttl_range: TtlRange::new(1, 14).expect("the test range must hold"),
        reached: true,
        hops: vec![Hop {
            ttl: 1,
            addr: Addr::V4(ipv4(192, 168, 1, 1)),
            rtt_bits: 1.23f64.to_bits(),
            icmp: "time_exceeded".to_owned(),
        }],
    })
}

fn end_record(id: &str, reason: EndReason) -> Record {
    Record::End(EndRecord {
        run: RunId::from(id),
        ts: Stamp { nanos: RUN_NANOS + 3_600_000_000_000 },
        rounds: 1420,
        reason,
    })
}

/// The text of one line of a test file, and the record that it stands for.
///
/// The walk of a file leaves the parse of a line to its caller; the caller of
/// these tests reads a line by this table.
fn line_of(record: &Record) -> String {
    format!("{record:?}")
}

/// The parse of one line: a record of the table, no record for a `type` that
/// this build does not know, or a fault.
fn parse(text: &str, known: &[Record]) -> Result<Option<Record>, String> {
    if text == WEATHER_LINE {
        return Ok(None);
    }
    known
        .iter()
        .find(|record| line_of(record) == text)
        .map(|record| Some(record.clone()))
        .ok_or_else(|| "expected value at line 1 column 1".to_owned())
}

/// Walks the bytes of one file, line by line, as a caller of the reader does.
fn read(bytes: &[u8], known: &[Record]) -> Result<Recording, ReadError> {
    let mut reader = Reader::new(PATH);
    let mut rest = bytes;
    while !rest.is_empty() {
        let end = rest.iter().position(|b| *b == b'\n').map_or(rest.len(), |at| at + 1);
        let (chunk, after) = rest.split_at(end);
        rest = after;
        let mut next = reader.line(chunk.to_vec());
        if let Next::Parse(text) = next {
            next = reader.parsed(parse(&text, known));
        }
        match next {
            Next::Read => {}
            Next::Parse(_) => unreachable!("a parse hands back no second parse"),
            Next::Stop => break,
            Next::Fail(error) => return Err(error),
        }
    }
    Ok(reader.finish())
}

/// Joins the lines of a file. Every line ends with a newline.
fn file_of(records: &[Record]) -> Vec<u8> {
    let mut text = String::new();
    for record in records {
        text.push_str(&line_of(record));
        text.push('\n');
    }
    text.into_bytes()
}

fn two_runs() -> Vec<Record> {
    vec![
        run_record(RUN),
        name_record(RUN, FIRST_HOST),
        round_record(RUN, 1),
        round_record(RUN, 2),
        end_record(RUN, EndReason::Quit),
        run_record(OTHER_RUN),
        name_record(OTHER_RUN, OTHER_HOST),
        round_record(OTHER_RUN, 7),
        end_record(OTHER_RUN, EndReason::Duration),
    ]
}

fn recording_of(records: &[Record]) -> Recording {
    read(&file_of(records), records).expect("the test file must read")
}

fn kind_of(record: &Record) -> &'static str {
    match record {
        Record::Run(_) => "run",
        Record::Name(_) => "name",
        Record::Round(_) => "round",
        Record::End(_) => "end",
        Record::Unknown => "unknown",
    }
}

fn kinds_of(recording: &Recording) -> Vec<&'static str> {
    recording.records().iter().map(kind_of).collect()
}

fn seqs_of(run: &Run<'_>) -> Vec<u64> {
    run.rounds().iter().map(|round| round.seq).collect()
}

fn hosts_of<'a>(run: &Run<'a>) -> Vec<&'a str> {
    run.names().iter().copied().map(|name| name.host.as_str()).collect()
}

#[test]
fn a_run_identifier_holds_the_start_time_to_the_millisecond() {
    assert_eq!(RunId::at(Stamp { nanos: RUN_NANOS }).as_str(), RUN);
}

#[test]
fn a_run_identifier_holds_the_start_time_in_utc() {
    assert_eq!(RunId::at(Stamp { nanos: RUN_NANOS + 456_789 }), RunId::from(RUN));
}

#[test]
fn a_run_identifier_at_a_whole_second_holds_three_fractional_digits() {
    assert_eq!(
        RunId::at(Stamp { nanos: 1_787_058_000_000_000_000 }).as_str(),
        "2026-08-18T13:00:00.000Z"
    );
}

#[test]
fn every_record_names_the_run_it_belongs_to() {
    let expected = RunId::from(RUN);
    for record in [
        run_record(RUN),
        name_record(RUN, FIRST_HOST),
        round_record(RUN, 1),
        end_record(RUN, EndReason::Quit),
    ] {
        assert_eq!(record.run_id(), Some(&expected), "{record:?}");
    }
}

#[test]
fn an_unknown_record_names_no_run() {
    assert_eq!(Record::Unknown.run_id(), None);
}

#[test]
fn a_file_of_two_runs_holds_every_record_in_file_order() {
    let recording = recording_of(&two_runs());
    assert_eq!(
        kinds_of(&recording),
        ["run", "name", "round", "round", "end", "run", "name", "round", "end"]
    );
    let first = RunId::from(RUN);
    let other = RunId::from(OTHER_RUN);
    let ids: Vec<&RunId> = recording.records().iter().filter_map(Record::run_id).collect();
    assert_eq!(ids, [&first, &first, &first, &first, &first, &other, &other, &other, &other]);
    assert_eq!(recording.records()[0], run_record(RUN));
    assert_eq!(recording.truncated(), None);
}

#[test]
fn a_file_of_two_runs_names_both_runs_in_the_order_they_start() {
    assert_eq!(recording_of(&two_runs()).run_ids(), [RunId::from(RUN), RunId::from(OTHER_RUN)]);
}

#[test]
fn the_last_run_is_the_second_run_of_a_file_of_two_runs() {
    let recording = recording_of(&two_runs());
    let run = recording.last_run().expect("the file holds two runs");
    assert_eq!(run.id(), &RunId::from(OTHER_RUN));
    assert_eq!(seqs_of(&run), [7]);
}

#[test]
fn a_named_run_is_the_first_run_of_a_file_of_two_runs() {
    let recording = recording_of(&two_runs());
    let run = recording.run(&RunId::from(RUN)).expect("the file holds the first run");
    assert_eq!(run.id(), &RunId::from(RUN));
    assert_eq!(seqs_of(&run), [1, 2]);
}

#[test]
fn a_run_that_the_file_does_not_hold_is_no_run() {
    assert!(recording_of(&two_runs()).run(&RunId::from(ABSENT_RUN)).is_none());
}

#[test]
fn a_run_holds_the_names_the_rounds_and_the_end_of_that_run_only() {
    let recording = recording_of(&two_runs());
    let first = recording.run(&RunId::from(RUN)).expect("the file holds the first run");
    assert_eq!(hosts_of(&first), [FIRST_HOST]);
    assert_eq!(seqs_of(&first), [1, 2]);
    assert_eq!(first.start().expect("the first run starts").run, RunId::from(RUN));
    assert_eq!(first.end().expect("the first run ends").reason, EndReason::Quit);

    let other = recording.run(&RunId::from(OTHER_RUN)).expect("the file holds the second run");
    assert_eq!(hosts_of(&other), [OTHER_HOST]);
    assert_eq!(seqs_of(&other), [7]);
    assert_eq!(other.start().expect("the second run starts").run, RunId::from(OTHER_RUN));
    assert_eq!(other.end().expect("the second run ends").reason, EndReason::Duration);
}

#[test]
fn a_type_that_this_build_does_not_know_is_skipped_by_the_reader() {
    let known = [run_record(RUN), end_record(RUN, EndReason::Quit)];
    let mut bytes = line_of(&known[0]).into_bytes();
    bytes.push(b'\n');
    bytes.extend_from_slice(WEATHER_LINE.as_bytes());
    bytes.push(b'\n');
    bytes.extend_from_slice(line_of(&known[1]).as_bytes());
    bytes.push(b'\n');
    let recording = read(&bytes, &known).expect("the file must read");
    assert_eq!(kinds_of(&recording), ["run", "end"]);
    assert_eq!(recording.truncated(), None);
}

#[test]
fn a_final_line_that_is_cut_short_names_the_line_and_the_byte_count() {
    let known = [run_record(RUN), round_record(RUN, 1), round_record(RUN, 2)];
    let cut = line_of(&known[2]);
    let head = cut.len() / 2;
    let mut bytes = file_of(&known[..2]);
    bytes.extend_from_slice(&cut.as_bytes()[..head]);
    let recording = read(&bytes, &known).expect("the file must read");
    let truncated = recording.truncated().expect("the file holds a cut line");
    assert_eq!(truncated.line(), 3);
    assert_eq!(truncated.bytes(), head);
    assert_eq!(kinds_of(&recording), ["run", "round"]);
}

#[test]
fn a_final_line_that_is_cut_inside_a_character_names_the_line_and_the_byte_count() {
    let japanese = "ルーター.lan";
    let known = [run_record(RUN), name_record(RUN, japanese)];
    let cut = line_of(&known[1]);
    let head = cut.find(japanese).expect("the line holds the name") + 1;
    let mut bytes = file_of(&known[..1]);
    bytes.extend_from_slice(&cut.as_bytes()[..head]);
    let recording = read(&bytes, &known).expect("the file must read");
    let truncated = recording.truncated().expect("the file holds a cut line");
    assert_eq!(truncated.line(), 2);
    assert_eq!(truncated.bytes(), head);
    assert_eq!(kinds_of(&recording), ["run"]);
}

#[test]
fn a_file_that_ends_with_a_newline_holds_no_cut_line() {
    assert_eq!(recording_of(&two_runs()).truncated(), None);
}

#[test]
fn a_final_line_that_no_newline_ended_and_that_parses_is_one_record() {
    let known = [run_record(RUN), end_record(RUN, EndReason::Quit)];
    let mut bytes = file_of(&known[..1]);
    bytes.extend_from_slice(line_of(&known[1]).as_bytes());
    let recording = read(&bytes, &known).expect("the file must read");
    assert_eq!(kinds_of(&recording), ["run", "end"]);
    assert_eq!(recording.truncated(), None);
}

#[test]
fn a_complete_line_that_is_not_json_names_the_line() {
    let known = [run_record(RUN), end_record(RUN, EndReason::Quit)];
    let mut bytes = file_of(&known[..1]);
    bytes.extend_from_slice(NOT_JSON_LINE.as_bytes());
    bytes.push(b'\n');
    bytes.extend_from_slice(&file_of(&known[1..]));
    let error = read(&bytes, &known).expect_err("a corrupt line must fail");
    match &error {
        ReadError::Corrupt { path, line, .. } => {
            assert_eq!(*line, 2);
            assert_eq!(path, PATH);
        }
        other => panic!("a corrupt line must report a corrupt line: {other:?}"),
    }
    assert!(error.message().contains("line 2"), "the message names the line: {}", error.message());
}

#[test]
fn a_complete_line_that_is_not_text_names_the_line() {
    let known = [run_record(RUN), end_record(RUN, EndReason::Quit)];
    let mut bytes = file_of(&known[..1]);
    bytes.extend_from_slice(&NOT_TEXT);
    bytes.push(b'\n');
    bytes.extend_from_slice(&file_of(&known[1..]));
    let error = read(&bytes, &known).expect_err("a line that is not text must fail");
    match &error {
        ReadError::NotText { path, line } => {
            assert_eq!(*line, 2);
            assert_eq!(path, PATH);
        }
        other => panic!("a line that is not text must report that fault: {other:?}"),
    }
    assert_eq!(error.message(), "runs/trace.jsonl: line 2 is not utf-8 text");
}

#[test]
fn a_fault_of_the_system_names_the_path() {
    let error = ReadError::Io { path: PATH.to_owned(), reason: "No such file".to_owned() };
    assert_eq!(error.message(), "runs/trace.jsonl: No such file");
}

#[test]
fn an_empty_file_holds_no_record_and_no_run() {
    let recording = read(b"", &[]).expect("the file must read");
    assert!(recording.records().is_empty(), "the file holds no record");
    assert!(recording.run_ids().is_empty(), "the file holds no run");
    assert!(recording.last_run().is_none(), "the file holds no last run");
    assert_eq!(recording.truncated(), None);
}

#[test]
fn a_file_that_holds_no_run_record_still_names_the_run() {
    let recording = recording_of(&[round_record(RUN, 1), round_record(RUN, 2)]);
    assert_eq!(recording.run_ids(), [RunId::from(RUN)]);
    let run = recording.last_run().expect("the file holds one run");
    assert!(run.start().is_none(), "the file holds no run record");
    assert!(run.end().is_none(), "the file holds no end record");
    assert_eq!(seqs_of(&run), [1, 2]);
}

#[test]
fn a_blank_line_between_two_records_is_no_fault() {
    let known = [run_record(RUN), end_record(RUN, EndReason::Quit)];
    let mut bytes = file_of(&known[..1]);
    bytes.extend_from_slice(b"  \n");
    bytes.extend_from_slice(&file_of(&known[1..]));
    let recording = read(&bytes, &known).expect("the file must read");
    assert_eq!(kinds_of(&recording), ["run", "end"]);
    assert_eq!(recording.truncated(), None);
}

#[test]
fn a_range_that_runs_backward_is_a_fault() {
    let error = TtlRange::new(5, 3).expect_err("the range runs backward");
    assert_eq!(
        error.message(),
        "the ttl range [5, 3] runs backward: the first ttl is above the last one"
    );
    assert!(TtlRange::try_from_pair([5, 3]).is_err());
}

#[test]
fn a_range_holds_every_ttl_from_the_first_one_to_the_last_one() {
    let range = TtlRange::new(1, 14).expect("the range runs forward");
    assert_eq!(range.first(), 1);
    assert_eq!(range.last(), 14);
    assert_eq!(range.pair(), [1, 14]);
    assert!(range.contains(1) && range.contains(7) && range.contains(14));
    assert!(!range.contains(0) && !range.contains(15));
    assert_eq!(TtlRange::try_from_pair(range.pair()), Ok(range));
}

#[test]
fn the_message_of_a_cut_line_names_the_line_and_the_byte_count() {
    let cut = Truncated::new(2, 13);
    assert_eq!(cut.line(), 2);
    assert_eq!(cut.bytes(), 13);
    assert_eq!(cut.text(), "line 2 is cut short at 13 bytes");
}

#[test]
fn the_next_moment_stands_one_millisecond_after_the_one_before_it() {
    let first = Stamp { nanos: RUN_NANOS };
    assert_eq!(next_moment(None, first), first);
    assert_eq!(next_moment(Some(first), first), Stamp { nanos: RUN_NANOS + 1_000_000 });
    let later = Stamp { nanos: RUN_NANOS + 5_000_000 };
    assert_eq!(next_moment(Some(first), later), later);
}

#[test]
fn every_destination_of_a_hunt_takes_its_own_run_identifier_in_order() {
    let start = Stamp { nanos: RUN_NANOS };
    let mut previous = None;
    let mut ids = Vec::new();
    for _ in 0..3 {
        let moment = next_moment(previous, start);
        ids.push(RunId::at(moment).as_str().to_owned());
        previous = Some(moment);
    }
    assert_eq!(ids, ["2026-08-18T12:00:00.123Z", "2026-08-18T12:00:00.124Z", "2026-08-18T12:00:00.125Z"]);
}

#[test]
fn the_white_space_around_a_record_is_no_part_of_it() {
    let known = [run_record(RUN)];
    let mut bytes = b" \t".to_vec();
    bytes.extend_from_slice(line_of(&known[0]).as_bytes());
    bytes.extend_from_slice(b"  \r\n");
    let recording = read(&bytes, &known).expect("the file must read");
    assert_eq!(kinds_of(&recording), ["run"]);
}

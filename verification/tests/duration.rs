use krt::period::{parse_duration, render_duration, Period};

/// Every text that the parser rejects, for the message tests.
const BAD_TEXTS: [&str; 16] = [
    "",
    "1",
    "1sec",
    "5x",
    "ms",
    "abc",
    "-1s",
    "0s",
    "0ms",
    "99999999999999999999m",
    "1秒",
    "1🎉",
    "1é",
    "秒",
    "café",
    "½s",
];

/// Every text where a digit runs into a multi-byte character that is no unit.
const MULTI_BYTE_UNKNOWN_UNITS: [&str; 3] = ["1秒", "1🎉", "1é"];

/// Every text that starts with a multi-byte character in the place of a digit.
const MULTI_BYTE_TEXTS_WITHOUT_A_NUMBER: [&str; 3] = ["秒", "café", "½s"];

fn error_of(text: &str) -> String {
    parse_duration(text).expect_err("the parser must reject this text")
}

fn millis(count: u64) -> Period {
    Period { secs: count / 1000, millis: (count % 1000) as u32 }
}

fn secs(count: u64) -> Period {
    Period { secs: count, millis: 0 }
}

#[test]
fn parses_milliseconds() {
    assert_eq!(parse_duration("500ms").unwrap(), millis(500));
}

#[test]
fn parses_many_milliseconds() {
    assert_eq!(parse_duration("1500ms").unwrap(), millis(1500));
}

#[test]
fn parses_seconds() {
    assert_eq!(parse_duration("1s").unwrap(), secs(1));
}

#[test]
fn parses_many_seconds() {
    assert_eq!(parse_duration("90s").unwrap(), secs(90));
}

#[test]
fn parses_minutes() {
    assert_eq!(parse_duration("2m").unwrap(), secs(2 * 60));
}

#[test]
fn parses_hours() {
    assert_eq!(parse_duration("3h").unwrap(), secs(3 * 3600));
}

#[test]
fn rejects_empty_text() {
    assert!(error_of("").contains("empty"));
}

#[test]
fn rejects_text_without_a_unit() {
    let message = error_of("1");
    assert!(message.contains("`1`"), "the message names the text: {message}");
    assert!(message.contains("no unit"), "the message names the fault: {message}");
    assert!(
        message.contains("the unit must be `ms`, `s`, `m`, or `h`"),
        "the message names the accepted units: {message}"
    );
}

#[test]
fn rejects_an_unknown_unit() {
    for text in ["1sec", "5x"].into_iter().chain(MULTI_BYTE_UNKNOWN_UNITS) {
        let message = error_of(text);
        assert!(message.contains(text), "the message names the text: {message}");
        assert!(
            message.contains("the unit must be `ms`, `s`, `m`, or `h`"),
            "the message names the accepted units: {message}"
        );
    }
}

#[test]
fn rejects_text_without_a_number() {
    for text in ["ms", "abc"].into_iter().chain(MULTI_BYTE_TEXTS_WITHOUT_A_NUMBER) {
        let message = error_of(text);
        assert!(message.contains("no number"), "the message names the fault: {message}");
    }
}

#[test]
fn a_duration_that_holds_a_multi_byte_character_never_panics() {
    for text in MULTI_BYTE_UNKNOWN_UNITS.into_iter().chain(MULTI_BYTE_TEXTS_WITHOUT_A_NUMBER) {
        let message = error_of(text);
        assert!(message.contains(text), "the message names the text: {message}");
    }
}

#[test]
fn rejects_a_negative_duration() {
    let message = error_of("-1s");
    assert!(message.contains("never negative"), "the message names the fault: {message}");
}

#[test]
fn rejects_a_zero_duration() {
    for text in ["0s", "0ms"] {
        let message = error_of(text);
        assert!(message.contains("zero"), "the message names the fault: {message}");
    }
}

#[test]
fn rejects_a_number_that_overflows() {
    let message = error_of("99999999999999999999m");
    assert!(message.contains("too large"), "the message names the fault: {message}");
}

#[test]
fn every_error_names_the_accepted_forms() {
    for text in BAD_TEXTS {
        let message = error_of(text);
        assert!(
            message.contains("as in `500ms`, `1s`, or `2m`"),
            "the message names the accepted forms: {message}"
        );
    }
}

#[test]
fn a_parsed_duration_renders_as_the_text_of_the_parse() {
    for text in ["500ms", "1s", "90s", "2m", "1h"] {
        assert_eq!(render_duration(parse_duration(text).unwrap()), text);
    }
}

#[test]
fn a_rendered_period_parses_back_to_itself() {
    for period in [millis(1), millis(999), millis(1500), secs(59), secs(60), secs(61), secs(3600), secs(7200)] {
        assert_eq!(parse_duration(&render_duration(period)).unwrap(), period);
    }
}

#[test]
fn a_rendered_period_takes_the_largest_unit_that_holds_it_whole() {
    assert_eq!(render_duration(millis(1500)), "1500ms");
    assert_eq!(render_duration(secs(120)), "2m");
    assert_eq!(render_duration(secs(7200)), "2h");
    assert_eq!(render_duration(secs(61)), "61s");
}

#[test]
fn a_leading_plus_is_no_number() {
    assert!(error_of("+1s").contains("no number"));
}

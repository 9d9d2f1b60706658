use krt::record::RunId;
use krt::summary::{display_width, is_wide_char, pad, table, PathKind, Rank, Score};

#[test]
fn a_latin_text_takes_one_column_for_each_character() {
    assert_eq!(display_width("router"), 6);
    assert_eq!(display_width("café"), 4, "an accented letter takes one column, not its two bytes");
    assert_eq!(display_width(""), 0);
}

#[test]
fn a_wide_glyph_takes_two_columns() {
    assert_eq!(display_width("ルーター"), 8);
    assert_eq!(display_width("路由器"), 6);
    assert_eq!(display_width("라우터"), 6);
    assert_eq!(display_width("ＡＢ"), 4, "full-width forms take two columns");
    assert_eq!(display_width("😀"), 2);
    assert_eq!(display_width("ルーターa"), 9);
}

#[test]
fn the_wide_blocks_hold_their_edges_and_nothing_past_them() {
    assert!(is_wide_char('\u{1100}'));
    assert!(is_wide_char('\u{115F}'));
    assert!(!is_wide_char('\u{1160}'));
    assert!(is_wide_char('\u{4E00}'));
    assert!(is_wide_char('\u{9FFF}'));
    assert!(!is_wide_char('\u{303F}'));
    assert!(is_wide_char('\u{FF01}'));
    assert!(!is_wide_char('\u{FF61}'), "a half-width katakana takes one column");
    assert!(!is_wide_char('a'));
}

#[test]
fn a_cell_with_a_wide_glyph_is_padded_by_its_columns() {
    assert_eq!(pad("ルー", 6, false), "ルー  ");
    assert_eq!(pad("ルー", 6, true), "  ルー");
    assert_eq!(pad("ルーター", 3, true), "ルーター", "a cell wider than its column is never cut");
    assert_eq!(pad("5", 3, true), "  5");
    assert_eq!(pad("Row", 8, false), "Row     ");
}

fn score(host: &str, length: u8) -> Score {
    Score {
        addr: 0x5DB8_D822,
        host: Some(host.to_owned()),
        run: RunId::from("2026-08-18T12:00:00.000Z"),
        kind: PathKind::Reached,
        length,
        time_key: Some(20.0f64.to_bits()),
        avg_cell: "20.0".to_owned(),
        loss_cell: "0.0%".to_owned(),
        gaps: 0,
    }
}

/// The terminal column at which `needle` starts on a line.
fn column_of(line: &str, needle: &str) -> usize {
    display_width(&line[..line.find(needle).expect("the line must hold the cell")])
}

#[test]
fn a_name_that_holds_a_wide_glyph_keeps_its_column() {
    let scores = vec![score("ルーター.jp", 5), score("router.example", 9)];
    let rows = vec![(Rank::Shortest, 0), (Rank::Longest, 1)];
    let lines = table(&scores, &rows);
    assert_eq!(lines.len(), 3);
    assert_eq!(column_of(&lines[1], "reached"), column_of(&lines[2], "reached"));
    assert_eq!(column_of(&lines[1], "20.0"), column_of(&lines[2], "20.0"));
}

use krt::addr::{addr_string, hex_text, ipv4, ipv4_string, ipv6_string, Addr};
use krt::blocks::{network_of, reserved};
use krt::order::{sort_texts, text_before};
use krt::period::{interval_millis, probe_time, Period};
use krt::summary::{line_of, pad};
use krt::text::{counted, decimal_text, same_text};

#[test]
fn a_count_of_one_keeps_the_singular_name() {
    assert_eq!(counted(1, "round"), "1 round");
    assert_eq!(counted(0, "round"), "0 rounds");
    assert_eq!(counted(2, "hop"), "2 hops");
}

#[test]
fn a_number_reads_in_decimal() {
    assert_eq!(decimal_text(0), "0");
    assert_eq!(decimal_text(12_345), "12345");
    assert_eq!(decimal_text(u128::MAX), u128::MAX.to_string());
}

#[test]
fn two_texts_are_the_same_when_every_character_is() {
    assert!(same_text("hunt", "hunt"));
    assert!(!same_text("hunt", "hunter"));
}

#[test]
fn an_address_of_version_four_reads_as_four_numbers() {
    assert_eq!(ipv4_string(ipv4(93, 184, 216, 34)), "93.184.216.34");
    assert_eq!(ipv4_string(0), "0.0.0.0");
}

#[test]
fn an_address_of_version_six_reads_as_the_standard_library_writes_it() {
    let cases: [(u128, &str); 7] = [
        (0, "::"),
        (1, "::1"),
        (0x2001_0db8_0000_0000_0000_0000_0000_0001, "2001:db8::1"),
        (0x2001_0db8_0000_0001_0000_0000_0000_0001, "2001:db8:0:1::1"),
        (0x0000_0000_0000_0000_0000_ffff_0102_0304, "::ffff:1.2.3.4"),
        (0x2001_0db8_0001_0001_0001_0001_0001_0001, "2001:db8:1:1:1:1:1:1"),
        (0x2001_0000_0000_0001_0000_0000_0000_0001, "2001:0:0:1::1"),
    ];
    for (bits, text) in cases {
        assert_eq!(ipv6_string(bits), text);
    }
}

#[test]
fn an_address_names_its_own_version() {
    assert_eq!(addr_string(Addr::V4(ipv4(1, 2, 3, 4))), "1.2.3.4");
    assert_eq!(addr_string(Addr::V6(1)), "::1");
    assert!(Addr::V4(0).is_ipv4() && !Addr::V4(0).is_ipv6());
    assert!(Addr::V6(0).is_ipv6());
}

#[test]
fn a_group_of_hex_digits_drops_its_leading_zeros() {
    assert_eq!(hex_text(0), "0");
    assert_eq!(hex_text(0xdb8), "db8");
    assert_eq!(hex_text(0xffff), "ffff");
}

#[test]
fn the_network_of_an_address_keeps_the_bits_of_its_prefix() {
    assert_eq!(network_of(ipv4(172, 20, 1, 1), 12), ipv4(172, 16, 0, 0));
    assert_eq!(network_of(ipv4(255, 255, 255, 255), 32), ipv4(255, 255, 255, 255));
}

#[test]
fn every_reserved_block_names_itself() {
    let expected = [
        ((0, 1, 2, 3), "0.0.0.0/8"),
        ((10, 1, 2, 3), "10.0.0.0/8"),
        ((100, 100, 0, 1), "100.64.0.0/10"),
        ((127, 0, 0, 1), "127.0.0.0/8"),
        ((169, 254, 3, 4), "169.254.0.0/16"),
        ((172, 31, 0, 1), "172.16.0.0/12"),
        ((192, 0, 0, 7), "192.0.0.0/24"),
        ((192, 0, 2, 7), "192.0.2.0/24"),
        ((192, 88, 99, 7), "192.88.99.0/24"),
        ((192, 168, 1, 1), "192.168.0.0/16"),
        ((198, 19, 0, 1), "198.18.0.0/15"),
        ((198, 51, 100, 7), "198.51.100.0/24"),
        ((203, 0, 113, 7), "203.0.113.0/24"),
        ((230, 1, 2, 3), "224.0.0.0/4"),
        ((250, 1, 2, 3), "240.0.0.0/4"),
    ];
    for ((a, b, c, d), block) in expected {
        let found = reserved(ipv4(a, b, c, d)).expect("the address stands in a block");
        assert_eq!(found.text(), block);
    }
    assert_eq!(reserved(ipv4(255, 255, 255, 255)).unwrap().text(), "240.0.0.0/4");
    assert_eq!(reserved(ipv4(8, 8, 8, 8)), None);
}

#[test]
fn texts_sort_by_their_characters() {
    let sorted = sort_texts(vec!["--source".to_owned(), "-4".to_owned(), "--duration".to_owned()]);
    assert_eq!(sorted, ["--duration", "--source", "-4"]);
    assert!(text_before("ab", "b"));
    assert!(text_before("a", "ab"));
    assert!(!text_before("b", "b"));
}

#[test]
fn the_probe_rounds_of_a_destination_take_the_interval_each() {
    assert_eq!(probe_time(Period { secs: 1, millis: 0 }, 21), Some(Period { secs: 21, millis: 0 }));
    assert_eq!(probe_time(Period { secs: 0, millis: 500 }, 3), Some(Period { secs: 1, millis: 500 }));
    assert_eq!(probe_time(Period { secs: 1, millis: 0 }, u64::MAX), None);
    assert_eq!(probe_time(Period { secs: u64::MAX, millis: 0 }, 2), None);
}

#[test]
fn the_interval_of_a_record_reads_in_milliseconds() {
    assert_eq!(interval_millis(Period { secs: 1, millis: 500 }), 1500);
    assert_eq!(interval_millis(Period { secs: u64::MAX, millis: 0 }), u64::MAX);
}

#[test]
fn a_cell_stands_against_the_edge_of_its_column() {
    assert_eq!(pad("5", 3, true), "  5");
    assert_eq!(pad("ab", 4, false), "ab  ");
    assert_eq!(pad("long", 2, false), "long", "a cell is never cut");
}

#[test]
fn a_line_of_the_table_keeps_the_edges_of_its_columns() {
    let cells = vec!["shortest".to_owned(), "a".to_owned(), "5".to_owned()];
    let line = line_of(&cells, &vec![8, 4, 3]);
    assert_eq!(line, " shortest  a       5");
}

#[test]
fn a_line_of_the_table_drops_the_spaces_after_its_last_cell() {
    let cells = vec!["longest".to_owned(), "a".to_owned()];
    assert_eq!(line_of(&cells, &vec![8, 6]), " longest   a");
}

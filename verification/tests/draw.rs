use krt::addr::ipv4;
use krt::blocks::{reserved, Block};
use krt::clock::SystemClock;
use krt::config::MinePlan;
use krt::draw::{Draw, Pick, ATTEMPTS, FIRST_HOST, LAST_HOST};
use krt::period::Period;
use std::collections::{BTreeMap, HashSet};

/// An address that a packet routes to, and that no test rejects.
const ROUTABLE: &str = "93.184.216.34";

/// A second address that a packet routes to.
const OTHER_ROUTABLE: &str = "1.1.1.1";

/// The number of addresses that the test of a seeded draw reads.
const SEEDED_DRAWS: usize = 64;

/// The seed of the hunt that a test repeats.
const SEED: u64 = 12_345;

/// A second seed, which draws another sequence.
const OTHER_SEED: u64 = 54_321;

/// Reads an address that a test names.
fn address(text: &str) -> u32 {
    let octets: Vec<u8> =
        text.split('.').map(|part| part.parse().expect("the test address must parse")).collect();
    assert_eq!(octets.len(), 4, "the test address holds four numbers");
    ipv4(octets[0], octets[1], octets[2], octets[3])
}

/// The draw over a scripted list of candidates.
fn draw_of(candidates: &[&str]) -> Draw {
    Draw::new(candidates.iter().copied().map(address).collect())
}

/// The address that a draw gives, after it reads the rejected candidates that
/// stand in front of one routable address.
fn drawn_past(rejected: &[&str]) -> Option<u32> {
    let mut candidates = rejected.to_vec();
    candidates.push(ROUTABLE);
    drawn(&mut draw_of(&candidates))
}

/// The address of the next pick of a draw, without the mine beside it.
fn drawn(draw: &mut Draw) -> Option<u32> {
    draw.address().map(|pick| pick.addr)
}

/// Asserts that the draw reads past every address of one reserved block.
fn rejects(block: &str, addresses: &[&str]) {
    assert_eq!(
        drawn_past(addresses),
        Some(address(ROUTABLE)),
        "the draw must read past `{block}`, which no packet routes to"
    );
}

#[test]
fn the_draw_gives_a_routable_address() {
    assert_eq!(drawn(&mut draw_of(&[ROUTABLE])), Some(address(ROUTABLE)));
}

#[test]
fn the_draw_of_a_source_that_ran_out_gives_no_address() {
    assert_eq!(drawn(&mut draw_of(&[])), None);
}

#[test]
fn the_draw_rejects_an_address_that_this_hunt_already_visited() {
    let mut draw = draw_of(&[ROUTABLE, ROUTABLE, OTHER_ROUTABLE]);
    assert_eq!(drawn(&mut draw), Some(address(ROUTABLE)));
    assert_eq!(drawn(&mut draw), Some(address(OTHER_ROUTABLE)));
}

#[test]
fn a_source_of_rejected_addresses_alone_stops_the_draw() {
    let loopback = address("127.0.0.1");
    let mut draw = Draw::new(vec![loopback; 3 * ATTEMPTS]);
    assert_eq!(drawn(&mut draw), None);
}

#[test]
fn the_draw_reads_no_more_candidates_than_the_bound_of_the_attempts() {
    let mut candidates = vec![address("10.0.0.1"); ATTEMPTS];
    candidates.push(address(ROUTABLE));
    let mut draw = Draw::new(candidates);
    assert_eq!(drawn(&mut draw), None, "the routable address stands past the bound");
    assert_eq!(drawn(&mut draw), Some(address(ROUTABLE)), "and the next ask reads on");
}

#[test]
fn the_draw_reads_a_routable_address_at_the_last_attempt() {
    let mut candidates = vec![address("10.0.0.1"); ATTEMPTS - 1];
    candidates.push(address(ROUTABLE));
    assert_eq!(drawn(&mut Draw::new(candidates)), Some(address(ROUTABLE)));
}

#[test]
fn the_draw_rejects_the_addresses_of_this_network() {
    rejects("0.0.0.0/8", &["0.0.0.0", "0.255.255.255"]);
}

#[test]
fn the_draw_rejects_the_private_addresses_of_ten() {
    rejects("10.0.0.0/8", &["10.0.0.0", "10.255.255.255"]);
}

#[test]
fn the_draw_rejects_the_addresses_that_a_carrier_shares() {
    rejects("100.64.0.0/10", &["100.64.0.0", "100.127.255.255"]);
}

#[test]
fn the_draw_rejects_the_loopback_addresses() {
    rejects("127.0.0.0/8", &["127.0.0.0", "127.255.255.255"]);
}

#[test]
fn the_draw_rejects_the_link_local_addresses() {
    rejects("169.254.0.0/16", &["169.254.0.0", "169.254.255.255"]);
}

#[test]
fn the_draw_rejects_the_private_addresses_of_a_hundred_seventy_two() {
    rejects("172.16.0.0/12", &["172.16.0.0", "172.31.255.255"]);
}

#[test]
fn the_draw_rejects_the_addresses_that_the_ietf_holds() {
    rejects("192.0.0.0/24", &["192.0.0.0", "192.0.0.255"]);
}

#[test]
fn the_draw_rejects_the_first_block_of_documentation() {
    rejects("192.0.2.0/24", &["192.0.2.0", "192.0.2.255"]);
}

#[test]
fn the_draw_rejects_the_addresses_of_the_six_to_four_relay() {
    rejects("192.88.99.0/24", &["192.88.99.0", "192.88.99.255"]);
}

#[test]
fn the_draw_rejects_the_private_addresses_of_a_hundred_ninety_two() {
    rejects("192.168.0.0/16", &["192.168.0.0", "192.168.255.255"]);
}

#[test]
fn the_draw_rejects_the_addresses_of_a_benchmark() {
    rejects("198.18.0.0/15", &["198.18.0.0", "198.19.255.255"]);
}

#[test]
fn the_draw_rejects_the_second_block_of_documentation() {
    rejects("198.51.100.0/24", &["198.51.100.0", "198.51.100.255"]);
}

#[test]
fn the_draw_rejects_the_third_block_of_documentation() {
    rejects("203.0.113.0/24", &["203.0.113.0", "203.0.113.255"]);
}

#[test]
fn the_draw_rejects_the_multicast_addresses() {
    rejects("224.0.0.0/4", &["224.0.0.0", "239.255.255.255"]);
}

#[test]
fn the_draw_rejects_the_addresses_that_no_use_holds() {
    rejects("240.0.0.0/4", &["240.0.0.0", "255.255.255.254"]);
}

#[test]
fn the_draw_rejects_the_broadcast_address() {
    rejects("255.255.255.255/32", &["255.255.255.255"]);
}

#[test]
fn the_guard_names_the_block_that_holds_the_address() {
    let found = reserved(address("172.20.1.1")).expect("the address stands in a block");
    assert_eq!(found.text(), "172.16.0.0/12");
}

#[test]
fn the_guard_names_no_block_for_a_routable_address() {
    assert_eq!(reserved(address(ROUTABLE)), None);
}

/// The addresses that a seeded draw gives, in the order it gave them.
fn seeded_addresses(seed: u64) -> Vec<u32> {
    let mut draw = Draw::seeded(seed);
    (0..SEEDED_DRAWS).map(|_| drawn(&mut draw).expect("the seeded draw never runs out")).collect()
}

#[test]
fn a_draw_of_the_same_seed_visits_the_same_addresses_in_the_same_order() {
    assert_eq!(seeded_addresses(SEED), seeded_addresses(SEED));
}

#[test]
fn a_draw_of_another_seed_visits_other_addresses() {
    assert_ne!(seeded_addresses(SEED), seeded_addresses(OTHER_SEED));
}

#[test]
fn every_address_of_a_seeded_draw_routes() {
    for addr in seeded_addresses(SEED) {
        assert_eq!(reserved(addr), None, "{addr} is an address of a block");
    }
}

#[test]
fn a_seeded_draw_gives_no_address_twice() {
    let addresses = seeded_addresses(SEED);
    let distinct: HashSet<u32> = addresses.iter().copied().collect();
    assert_eq!(distinct.len(), addresses.len());
}

#[test]
fn the_seeded_source_never_runs_out() {
    assert_eq!(seeded_addresses(SEED).len(), SEEDED_DRAWS);
}

#[test]
fn a_peek_gives_the_address_that_the_next_ask_gives() {
    let mut draw = draw_of(&["10.0.0.1", ROUTABLE, OTHER_ROUTABLE]);
    assert_eq!(draw.peek(), Some(address(ROUTABLE)));
    assert_eq!(draw.peek(), Some(address(ROUTABLE)), "a second peek reads the same address");
    assert_eq!(drawn(&mut draw), Some(address(ROUTABLE)));
    assert_eq!(drawn(&mut draw), Some(address(OTHER_ROUTABLE)));
}

#[test]
fn a_peek_of_a_draw_that_ran_out_gives_no_address() {
    assert_eq!(draw_of(&[]).peek(), None);
}

/// The address of the first hit that every mine of a test digs around.
const HIT: &str = "93.184.216.34";

/// The /24 that holds the first hit of a mine test.
const HIT_PREFIX: &str = "93.184.216.0";

/// The block that bounds a mine of the first hit at a prefix of 16.
const HIT_BLOCK: &str = "93.184.0.0";

/// The address of a first hit whose /16 holds two reserved /24s.
const HIT_BESIDE_RESERVED: &str = "192.0.1.5";

/// The length of the path that the first hit of a mine test measured.
const HIT_LENGTH: u8 = 20;

/// The number of addresses that one mine of a test probes.
const MINE_DEPTH: usize = 8;

/// The length of the block that one mine of a test stays inside.
const MINE_PREFIX: u8 = 16;

/// The number of addresses that one mine of a test probes of any one /24.
const MINE_PER_PREFIX: usize = 2;

/// The number of addresses that the mine of the reserved test probes.
const A_DEEP_MINE: usize = 200;

fn mine_plan(depth: usize, prefix: u8, per_prefix: usize) -> MinePlan {
    MinePlan { depth, prefix, per_prefix, delay: Period { secs: 0, millis: 0 } }
}

fn a_mine() -> MinePlan {
    mine_plan(MINE_DEPTH, MINE_PREFIX, MINE_PER_PREFIX)
}

fn mining_draw(candidates: &[&str], plan: MinePlan, seed: u64) -> Draw {
    draw_of(candidates).mining(plan, seed, Box::new(SystemClock))
}

fn mined_addresses(hit: &str, plan: MinePlan, seed: u64) -> Vec<u32> {
    let mut draw = mining_draw(&[], plan, seed);
    draw.scored(address(hit), HIT_LENGTH);
    std::iter::from_fn(|| draw.mined()).map(|pick| pick.addr).collect()
}

fn prefix_of(addr: u32) -> u32 {
    addr & 0xffff_ff00
}

#[test]
fn a_mine_gives_no_more_addresses_than_its_depth() {
    assert_eq!(mined_addresses(HIT, a_mine(), SEED).len(), MINE_DEPTH);
}

#[test]
fn a_mine_stays_inside_the_block_that_its_prefix_names() {
    let inside = Block { network: address(HIT_BLOCK), prefix: MINE_PREFIX };
    let addresses = mined_addresses(HIT, a_mine(), SEED);
    assert!(!addresses.is_empty(), "the mine drew no address at all");
    for addr in addresses {
        assert!(inside.holds(addr), "the mine drew {addr}, outside {}", inside.text());
    }
}

#[test]
fn a_mine_probes_no_more_addresses_of_one_prefix_than_its_cap() {
    let mut counted: BTreeMap<u32, usize> = BTreeMap::new();
    for addr in mined_addresses(HIT, a_mine(), SEED) {
        *counted.entry(prefix_of(addr)).or_default() += 1;
    }
    assert!(!counted.is_empty(), "the mine drew no address at all");
    for (prefix, count) in counted {
        assert!(count <= MINE_PER_PREFIX, "the mine probed {count} addresses of {prefix}");
    }
}

#[test]
fn a_mine_starts_in_the_prefix_of_the_first_hit() {
    let addresses = mined_addresses(HIT, a_mine(), SEED);
    let first = *addresses.first().expect("the mine gives an address");
    assert_eq!(prefix_of(first), address(HIT_PREFIX));
}

#[test]
fn a_mine_draws_a_sibling_prefix_once_the_first_one_holds_its_cap() {
    let addresses = mined_addresses(HIT, a_mine(), SEED);
    let prefixes: HashSet<u32> = addresses.iter().copied().map(prefix_of).collect();
    assert_eq!(prefixes.len(), MINE_DEPTH / MINE_PER_PREFIX);
}

#[test]
fn a_mine_gives_no_address_twice() {
    let addresses = mined_addresses(HIT, a_mine(), SEED);
    let distinct: HashSet<u32> = addresses.iter().copied().collect();
    assert_eq!(distinct.len(), addresses.len());
}

#[test]
fn a_mine_draws_no_network_no_broadcast_and_no_gateway() {
    for addr in mined_addresses(HIT, a_mine(), SEED) {
        let host = (addr & 0xff) as u8;
        assert!((FIRST_HOST..=LAST_HOST).contains(&host), "the mine drew {addr}");
    }
}

#[test]
fn a_mine_rejects_an_address_that_no_packet_routes_to() {
    let plan = mine_plan(A_DEEP_MINE, MINE_PREFIX, MINE_PER_PREFIX);
    let addresses = mined_addresses(HIT_BESIDE_RESERVED, plan, SEED);
    assert_eq!(addresses.len(), A_DEEP_MINE, "the mine drew too few addresses");
    for addr in addresses {
        assert_eq!(reserved(addr), None, "the mine drew {addr}, which no packet routes to");
    }
}

#[test]
fn a_mine_gives_no_address_that_the_hunt_already_visited() {
    let free = "93.184.216.7";
    let taken: Vec<String> = (FIRST_HOST..=LAST_HOST)
        .map(|host| format!("93.184.216.{host}"))
        .filter(|text| text != free)
        .collect();
    let names: Vec<&str> = taken.iter().map(String::as_str).collect();
    let mut draw = mining_draw(&names, mine_plan(4, 24, 4), SEED);
    while drawn(&mut draw).is_some() {}
    draw.scored(address(HIT), HIT_LENGTH);
    let mined: Vec<u32> = std::iter::from_fn(|| draw.mined()).map(|pick| pick.addr).collect();
    assert_eq!(mined, vec![address(free)]);
}

#[test]
fn a_mine_of_one_seed_gives_the_same_addresses() {
    let addresses = mined_addresses(HIT, a_mine(), SEED);
    assert!(!addresses.is_empty(), "the mine drew no address at all");
    assert_eq!(addresses, mined_addresses(HIT, a_mine(), SEED));
}

#[test]
fn a_mine_of_another_seed_gives_other_addresses() {
    assert_ne!(mined_addresses(HIT, a_mine(), SEED), mined_addresses(HIT, a_mine(), OTHER_SEED));
}

#[test]
fn the_address_of_a_mine_names_the_first_hit_that_started_it() {
    let mut draw = mining_draw(&[], a_mine(), SEED);
    draw.scored(address(HIT), HIT_LENGTH);
    let pick = draw.mined().expect("the mine gives an address");
    assert_eq!(pick.mine, Some(address(HIT)));
}

#[test]
fn an_independent_address_names_no_mine() {
    assert_eq!(draw_of(&[ROUTABLE]).address(), Some(Pick { addr: address(ROUTABLE), mine: None }));
}

#[test]
fn a_draw_that_mines_nothing_gives_no_mined_address() {
    let mut draw = draw_of(&[ROUTABLE]);
    draw.scored(address(HIT), HIT_LENGTH);
    assert_eq!(draw.mined(), None);
}

/// The address of a second first hit.
const FAR: &str = "72.14.200.1";

fn drained(draw: &mut Draw) -> usize {
    std::iter::from_fn(|| draw.mined()).count()
}

#[test]
fn a_mine_that_gave_every_address_of_its_depth_stands_no_longer() {
    let mut draw = mining_draw(&[], a_mine(), SEED);
    draw.scored(address(HIT), HIT_LENGTH);
    for place in 0..MINE_DEPTH {
        assert!(draw.mined().is_some(), "the mine must give address {place} of {MINE_DEPTH}");
    }
    assert_eq!(draw.mined(), None);
}

#[test]
fn the_first_result_of_a_hunt_starts_a_mine() {
    let mut draw = mining_draw(&[], a_mine(), SEED);
    draw.scored(address(HIT), HIT_LENGTH);
    assert!(draw.mined().is_some());
}

#[test]
fn a_result_no_longer_than_the_record_starts_no_mine() {
    let mut draw = mining_draw(&[], a_mine(), SEED);
    draw.scored(address(HIT), HIT_LENGTH);
    assert_eq!(drained(&mut draw), MINE_DEPTH);
    draw.scored(address(FAR), HIT_LENGTH);
    assert_eq!(draw.mined(), None);
}

#[test]
fn a_result_shorter_than_the_record_starts_no_mine() {
    let mut draw = mining_draw(&[], a_mine(), SEED);
    draw.scored(address(HIT), HIT_LENGTH);
    assert_eq!(drained(&mut draw), MINE_DEPTH);
    draw.scored(address(FAR), HIT_LENGTH - 1);
    assert_eq!(draw.mined(), None);
}

#[test]
fn a_result_longer_than_the_record_starts_a_mine() {
    let mut draw = mining_draw(&[], a_mine(), SEED);
    draw.scored(address(HIT), HIT_LENGTH);
    assert_eq!(drained(&mut draw), MINE_DEPTH);
    draw.scored(address(FAR), HIT_LENGTH + 1);
    let pick = draw.mined().expect("the mine of the new record gives an address");
    assert_eq!(pick.mine, Some(address(FAR)));
}

#[test]
fn a_new_record_replaces_the_mine_that_stands() {
    let mut draw = mining_draw(&[], a_mine(), SEED);
    draw.scored(address(HIT), HIT_LENGTH);
    draw.scored(address(FAR), HIT_LENGTH + 1);
    let mines: HashSet<Option<u32>> = std::iter::from_fn(|| draw.mined()).map(|pick| pick.mine).collect();
    assert_eq!(mines, HashSet::from([Some(address(FAR))]));
}

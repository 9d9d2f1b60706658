use krt::addr::{ipv4, Addr};
use krt::names::{Lookup, Namer, NoLookups, Resolver};
use krt::record::{Hop, NameRecord, RunId, Stamp};
use std::cell::{Cell, RefCell};
use std::collections::VecDeque;
use std::rc::Rc;

/// The identifier of the run that every record below belongs to.
const RUN: &str = "2026-08-23T12:00:00.000Z";

/// The moment of the first turn of a test, as nanoseconds since 1970.
const FIRST_MOMENT: i64 = 1_787_486_401_000_000_000;

/// The moment of a later turn of a test.
const LATER_MOMENT: i64 = 1_787_486_402_000_000_000;

/// The round-trip time of a hop that no test of this module reads.
const ANY_RTT: f64 = 1.5;

/// The name of the first router of the test path.
const FIRST_HOP_NAME: &str = "gateway.example.com";

/// The name of one more router of the test path.
const LEFT_ROUTER_NAME: &str = "left.example.com";

/// The name of the target of the test path.
const TARGET_NAME: &str = "example.com";

/// The address of the first router of the test path.
fn first_hop() -> Addr {
    Addr::V4(ipv4(192, 168, 1, 1))
}

/// The address of one more router, below the target in address order.
fn left_router() -> Addr {
    Addr::V4(ipv4(10, 0, 0, 1))
}

/// The address of the target of the test path.
fn target() -> Addr {
    Addr::V4(ipv4(93, 184, 216, 34))
}

/// The hops of one round: each one a TTL, and the address that answered at
/// that TTL.
fn hops(answers: &[(u8, Addr)]) -> Vec<Hop> {
    answers
        .iter()
        .map(|(ttl, addr)| Hop {
            ttl: *ttl,
            addr: *addr,
            rtt_bits: ANY_RTT.to_bits(),
            icmp: "time_exceeded".to_owned(),
        })
        .collect()
}

fn named(host: &str) -> Lookup {
    Lookup::Named(host.to_owned())
}

fn record(ts: i64, addr: Addr, host: &str) -> NameRecord {
    NameRecord { run: RunId::from(RUN), ts: Stamp { nanos: ts }, addr, host: host.to_owned() }
}

/// A resolver that a test programs: one answer for each ask of one address,
/// and the last answer of the list for every ask after the list runs out.
struct FakeResolver {
    answers: RefCell<Vec<(Addr, VecDeque<Lookup>)>>,
    asks: Cell<usize>,
}

impl FakeResolver {
    fn new(answers: &[(Addr, &[Lookup])]) -> Rc<Self> {
        Rc::new(Self {
            answers: RefCell::new(
                answers.iter().map(|(addr, list)| (*addr, list.iter().cloned().collect())).collect(),
            ),
            asks: Cell::new(0),
        })
    }

    fn asks(&self) -> usize {
        self.asks.get()
    }
}

/// The programmed resolver, shared between the test and the namer.
struct Shared(Rc<FakeResolver>);

impl Resolver for Shared {
    fn lookup(&self, addr: Addr) -> Lookup {
        let fake = &self.0;
        fake.asks.set(fake.asks.get() + 1);
        let mut answers = fake.answers.borrow_mut();
        let Some((_, queue)) = answers.iter_mut().find(|(held, _)| *held == addr) else {
            return Lookup::Nameless;
        };
        let answer = if queue.len() > 1 { queue.pop_front() } else { queue.front().cloned() };
        answer.unwrap_or(Lookup::Nameless)
    }
}

fn namer(resolver: &Rc<FakeResolver>) -> Namer {
    Namer::new(Box::new(Shared(Rc::clone(resolver))), RunId::from(RUN))
}

fn at(nanos: i64) -> Stamp {
    Stamp { nanos }
}

#[test]
fn an_address_that_resolves_gives_one_record_of_the_run() {
    let resolver = FakeResolver::new(&[(first_hop(), &[named(FIRST_HOP_NAME)])]);
    let mut namer = namer(&resolver);
    let records = namer.names(&hops(&[(1, first_hop())]), at(FIRST_MOMENT));
    assert_eq!(records, vec![record(FIRST_MOMENT, first_hop(), FIRST_HOP_NAME)]);
}

#[test]
fn an_address_with_no_name_gives_no_record_and_the_run_goes_on() {
    let resolver = FakeResolver::new(&[
        (first_hop(), &[Lookup::Nameless]),
        (target(), &[named(TARGET_NAME)]),
    ]);
    let mut namer = namer(&resolver);
    let first = namer.names(&hops(&[(1, first_hop())]), at(FIRST_MOMENT));
    assert!(first.is_empty(), "an address with no name takes no record");
    let later = namer.names(&hops(&[(3, target())]), at(LATER_MOMENT));
    assert_eq!(later, vec![record(LATER_MOMENT, target(), TARGET_NAME)]);
}

#[test]
fn an_address_that_answers_late_gives_its_record_on_the_later_turn() {
    let resolver = FakeResolver::new(&[(first_hop(), &[Lookup::Pending, named(FIRST_HOP_NAME)])]);
    let mut namer = namer(&resolver);
    let first = namer.names(&hops(&[(1, first_hop())]), at(FIRST_MOMENT));
    assert!(first.is_empty(), "a lookup that has not finished takes no record");
    let later = namer.names(&hops(&[(1, first_hop())]), at(LATER_MOMENT));
    assert_eq!(later, vec![record(LATER_MOMENT, first_hop(), FIRST_HOP_NAME)]);
}

#[test]
fn an_address_in_two_rounds_gives_one_record() {
    let resolver = FakeResolver::new(&[(first_hop(), &[named(FIRST_HOP_NAME)])]);
    let mut namer = namer(&resolver);
    let first = namer.names(&hops(&[(1, first_hop())]), at(FIRST_MOMENT));
    assert_eq!(first, vec![record(FIRST_MOMENT, first_hop(), FIRST_HOP_NAME)]);
    let later = namer.names(&hops(&[(1, first_hop())]), at(LATER_MOMENT));
    assert!(later.is_empty(), "the second round of the address takes no second record");
}

#[test]
fn an_address_at_two_ttls_of_one_round_gives_one_record() {
    let resolver = FakeResolver::new(&[(first_hop(), &[named(FIRST_HOP_NAME)])]);
    let mut namer = namer(&resolver);
    let records = namer.names(&hops(&[(1, first_hop()), (2, first_hop())]), at(FIRST_MOMENT));
    assert_eq!(records, vec![record(FIRST_MOMENT, first_hop(), FIRST_HOP_NAME)]);
}

#[test]
fn an_address_that_holds_a_name_is_never_asked_again() {
    let resolver = FakeResolver::new(&[(first_hop(), &[named(FIRST_HOP_NAME)])]);
    let mut namer = namer(&resolver);
    namer.names(&hops(&[(1, first_hop())]), at(FIRST_MOMENT));
    let asks = resolver.asks();
    assert_eq!(asks, 1, "the first turn asked the resolver once");
    namer.names(&hops(&[(1, first_hop())]), at(LATER_MOMENT));
    assert_eq!(resolver.asks(), asks, "an address that holds a name takes no further ask");
}

#[test]
fn an_address_that_holds_no_name_is_never_asked_again() {
    let resolver = FakeResolver::new(&[(first_hop(), &[Lookup::Nameless])]);
    let mut namer = namer(&resolver);
    namer.names(&hops(&[(1, first_hop())]), at(FIRST_MOMENT));
    let asks = resolver.asks();
    assert_eq!(asks, 1, "the first turn asked the resolver once");
    namer.names(&hops(&[(1, first_hop())]), at(LATER_MOMENT));
    assert_eq!(resolver.asks(), asks, "an address that holds no name takes no further ask");
}

#[test]
fn a_turn_that_saw_no_round_still_asks_about_the_addresses_that_wait() {
    let resolver = FakeResolver::new(&[(first_hop(), &[Lookup::Pending, named(FIRST_HOP_NAME)])]);
    let mut namer = namer(&resolver);
    let first = namer.names(&hops(&[(1, first_hop())]), at(FIRST_MOMENT));
    assert!(first.is_empty(), "a lookup that has not finished takes no record");
    let later = namer.names(&Vec::new(), at(LATER_MOMENT));
    assert_eq!(later, vec![record(LATER_MOMENT, first_hop(), FIRST_HOP_NAME)]);
}

#[test]
fn two_addresses_that_resolve_on_one_turn_give_two_records_in_address_order() {
    let resolver = FakeResolver::new(&[
        (target(), &[named(TARGET_NAME)]),
        (left_router(), &[named(LEFT_ROUTER_NAME)]),
    ]);
    let mut namer = namer(&resolver);
    let records = namer.names(&hops(&[(1, target()), (2, left_router())]), at(FIRST_MOMENT));
    assert_eq!(
        records,
        vec![
            record(FIRST_MOMENT, left_router(), LEFT_ROUTER_NAME),
            record(FIRST_MOMENT, target(), TARGET_NAME),
        ]
    );
}

#[test]
fn the_resolver_that_looks_nothing_up_gives_no_record_for_any_round() {
    assert_eq!(NoLookups.lookup(first_hop()), Lookup::Nameless);
    let mut namer = Namer::new(Box::new(NoLookups), RunId::from(RUN));
    assert!(namer.names(&hops(&[(1, first_hop()), (3, target())]), at(FIRST_MOMENT)).is_empty());
    assert!(namer.names(&hops(&[(1, first_hop())]), at(LATER_MOMENT)).is_empty());
}

#[test]
fn every_address_of_version_four_comes_before_every_address_of_version_six() {
    let six = Addr::V6(1);
    let resolver =
        FakeResolver::new(&[(six, &[named("six.example.com")]), (target(), &[named(TARGET_NAME)])]);
    let mut namer = namer(&resolver);
    let records = namer.names(&hops(&[(1, six), (2, target())]), at(FIRST_MOMENT));
    assert_eq!(
        records,
        vec![record(FIRST_MOMENT, target(), TARGET_NAME), record(FIRST_MOMENT, six, "six.example.com")]
    );
}

//! The draw of a hunt: the addresses that it traces, one at a time, and the
//! mine of the near space of the longest path that it measured.
//!
//! The draw rejects every candidate that no packet routes to, and every
//! candidate it already gave, so a hunt traces each destination once and
//! spends no round on an address that answers nothing by construction.

use crate::blocks::{network_bits, network_of, reserved, reserved_block};
use crate::clock::Clock;
use crate::config::MinePlan;
use rand::{Rng, SeedableRng};
use std::collections::{HashMap, HashSet};
use vstd::prelude::*;

verus! {

broadcast use vstd::std_specs::hash::group_hash_axioms;

/// A generator of pseudo-random numbers, which Verus reads nothing of.
#[verifier::external_type_specification]
#[verifier::external_body]
pub struct ExStdRng(rand::rngs::StdRng);

/// The generator of one seed.
///
/// The call is `StdRng::seed_from_u64`; the generator is opaque here, so the
/// contract says nothing of it.
#[verifier::external_body]
fn seeded_rng(seed: u64) -> rand::rngs::StdRng {
    rand::rngs::StdRng::seed_from_u64(seed)
}

/// The next number of a generator, over the whole width of a `u32`.
///
/// The call is `Rng::random`; the number rests on the state of the
/// generator, so the contract says nothing of it.
#[verifier::external_body]
fn random_bits(rng: &mut rand::rngs::StdRng) -> u32 {
    rng.random()
}

/// A number of a generator from `low` through `high`.
///
/// The call is `Rng::random_range` over the inclusive range, which gives a
/// number of the range and panics on an empty one; the contract says that.
#[verifier::external_body]
fn random_through(rng: &mut rand::rngs::StdRng, low: u8, high: u8) -> (n: u8)
    requires
        low <= high,
    ensures
        low <= n <= high,
{
    rng.random_range(low..=high)
}

/// A number of a generator below `span`.
///
/// The call is `Rng::random_range` over the range from zero, which gives a
/// number of the range and panics on an empty one; the contract says that.
#[verifier::external_body]
fn random_below(rng: &mut rand::rngs::StdRng, span: u32) -> (n: u32)
    requires
        span > 0,
    ensures
        n < span,
{
    rng.random_range(0..span)
}

/// True when the first moment comes before the second one.
///
/// The call is the `<` of `Instant`; the moments are opaque here, so the
/// contract says nothing of the answer.
#[verifier::external_body]
fn instant_before(a: &std::time::Instant, b: &std::time::Instant) -> bool {
    a < b
}

/// The number of candidates that one draw reads before it gives up.
pub const ATTEMPTS: usize = 1000;

/// The lowest host number that a mine draws inside one /24.
pub const FIRST_HOST: u8 = 2;

/// The highest host number that a mine draws inside one /24.
pub const LAST_HOST: u8 = 254;

/// The number of bits of an address that name the host inside its /24.
pub const HOST_BITS: u8 = 8;

/// The length of the block that a mine draws at.
pub const MINE_GRAIN: u8 = 24;

/// The number of draws that one address of a mine takes before the mine
/// ends.
pub const MINE_ATTEMPTS: usize = 10000;

/// The number that the seed of a hunt shifts by to seed its mines.
pub const MINE_SEED_SHIFT: u64 = 0x6b72_745f_6d69_6e65;

/// One address that a hunt traces, and where the draw found it.
#[derive(Clone, Copy, Debug, PartialEq, Eq, Structural)]
pub struct Pick {
    /// The address to trace.
    pub addr: u32,
    /// The address of the first hit whose mine drew this address. An
    /// independent draw of the source holds none.
    pub mine: Option<u32>,
}

/// The bounds of a plan of a mine that the draw can keep.
pub open spec fn plan_wf(plan: MinePlan) -> bool {
    &&& plan.delay.wf()
    &&& 8 <= plan.prefix <= 24
    &&& plan.per_prefix >= 1
    &&& plan.depth >= 1
}

/// The host number of an address inside its /24.
pub open spec fn host_of(addr: u32) -> u32 {
    addr & 0xffu32
}

/// One mine while it runs: where it digs, how much of its depth is left, and
/// how much of each /24 it already took.
pub struct Dig {
    /// The address of the first hit that started this mine.
    origin: u32,
    /// The block that this mine stays inside, as the bits of its network.
    block: u32,
    /// The /24 that this mine draws in now, as the bits of its network.
    prefix: u32,
    /// The number of addresses that this mine still gives.
    left: usize,
    /// The number of addresses that this mine gave of each /24.
    probed: HashMap<u32, usize>,
    /// The moment that this mine gives its next address at, in nanoseconds
    /// since the mine of the hunt was built; none before its first address.
    ready: Option<u128>,
}

/// The numbers that a mine of a prefix length keeps to: the /24 it draws in
/// stands inside its block, and no /24 holds more than the cap.
pub open spec fn dig_wf(origin: u32, block: u32, prefix: u32, left: usize, probed: Map<u32, usize>, plan: MinePlan) -> bool {
    &&& plan_wf(plan)
    &&& block == network_bits(origin, plan.prefix)
    &&& network_bits(prefix, MINE_GRAIN) == prefix
    &&& network_bits(prefix, plan.prefix) == block
    &&& left >= 1
    &&& forall|k: u32| #[trigger] probed.contains_key(k) ==> probed[k] <= plan.per_prefix
}

/// The /24 of an address stands inside the block of a shorter prefix that
/// holds the address.
proof fn lemma_host_in_prefix(prefix: u32, host: u8, p: u8)
    requires
        network_bits(prefix, 24) == prefix,
        8 <= p <= 24,
    ensures
        network_bits(prefix | (host as u32), 24) == prefix,
        network_bits(prefix | (host as u32), p) == network_bits(prefix, p),
        host_of(prefix | (host as u32)) == host,
{
    let h = host as u32;
    assert(h < 256);
    assert(prefix & (0xffff_ffffu32 << 8u32) == prefix ==> (prefix | h) & (0xffff_ffffu32 << 8u32)
        == prefix) by (bit_vector)
        requires
            h < 256,
    ;
    assert(prefix & (0xffff_ffffu32 << 8u32) == prefix ==> (prefix | h) & 0xffu32 == h) by (bit_vector)
        requires
            h < 256,
    ;
    let s = (32 - p) as u32;
    assert(prefix & (0xffff_ffffu32 << 8u32) == prefix && 8 <= s <= 24 ==> (prefix | h) & (
    0xffff_ffffu32 << s) == prefix & (0xffff_ffffu32 << s)) by (bit_vector)
        requires
            h < 256,
    ;
}

/// A /24 that a mine draws inside its block stands inside that block.
proof fn lemma_sibling_in_block(block: u32, r: u32, p: u8)
    requires
        8 <= p <= 24,
        r < (1u32 << ((24 - p) as u32)),
        network_bits(block, p) == block,
    ensures
        network_bits(block | (r << 8u32), 24) == block | (r << 8u32),
        network_bits(block | (r << 8u32), p) == block,
{
    let s = (32 - p) as u32;
    let t = (24 - p) as u32;
    assert(8 <= s <= 24 && t + 8 == s && r < (1u32 << t) && block & (0xffff_ffffu32 << s) == block
        ==> (block | (r << 8u32)) & (0xffff_ffffu32 << 8u32) == block | (r << 8u32)) by (bit_vector);
    assert(8 <= s <= 24 && t + 8 == s && r < (1u32 << t) && block & (0xffff_ffffu32 << s) == block
        ==> (block | (r << 8u32)) & (0xffff_ffffu32 << s) == block) by (bit_vector);
}

/// A network of a prefix is its own network at that prefix.
proof fn lemma_network_idempotent(addr: u32, p: u8)
    requires
        1 <= p <= 32,
    ensures
        network_bits(network_bits(addr, p), p) == network_bits(addr, p),
{
    let s = (32 - p) as u32;
    assert(s <= 31 ==> (addr & (0xffff_ffffu32 << s)) & (0xffff_ffffu32 << s) == addr & (
    0xffff_ffffu32 << s)) by (bit_vector);
}

/// The network of a block holds the network of the /24 of an address at a
/// longer prefix.
proof fn lemma_network_nested(addr: u32, p: u8)
    requires
        8 <= p <= 24,
    ensures
        network_bits(network_bits(addr, 24), p) == network_bits(addr, p),
        network_bits(network_bits(addr, 24), 24) == network_bits(addr, 24),
{
    let s = (32 - p) as u32;
    assert(8 <= s <= 24 ==> (addr & (0xffff_ffffu32 << 8u32)) & (0xffff_ffffu32 << s) == addr & (
    0xffff_ffffu32 << s)) by (bit_vector);
    lemma_network_idempotent(addr, 24);
}

/// The address of one host of a /24.
pub open spec fn host_at(prefix: u32, host: u8) -> u32 {
    prefix | (host as u32)
}

/// The /24 of a block that a draw of the number `r` names.
pub open spec fn sibling_of(block: u32, r: u32) -> u32 {
    block | (r << 8u32)
}

/// The number of /24s that a block of a prefix length holds.
pub open spec fn span_of(plan: MinePlan) -> u32 {
    1u32 << ((24 - plan.prefix) as u32)
}

/// Every host of a /24 that a mine draws from is one that the hunt has not
/// visited and that a packet routes to.
pub open spec fn hosts_free(prefix: u32, seen: Set<u32>) -> bool {
    forall|h: u8|
        FIRST_HOST <= h <= LAST_HOST ==> !seen.contains(#[trigger] host_at(prefix, h)) && reserved_block(
            host_at(prefix, h),
        ) is None
}

/// Every /24 of the block of a mine stands below the cap and routes.
pub open spec fn siblings_open(d: Dig, plan: MinePlan) -> bool {
    forall|r: u32|
        r < span_of(plan) ==> d.taken_view(#[trigger] sibling_of(d.block_view(), r)) < plan.per_prefix
            && reserved_block(sibling_of(d.block_view(), r)) is None
}

/// Every /24 of the block of a mine stands below the cap, routes, and holds
/// hosts that are all free.
pub open spec fn siblings_free(d: Dig, plan: MinePlan, seen: Set<u32>) -> bool {
    forall|r: u32|
        r < span_of(plan) ==> d.taken_view(#[trigger] sibling_of(d.block_view(), r)) < plan.per_prefix
            && reserved_block(sibling_of(d.block_view(), r)) is None && hosts_free(
            sibling_of(d.block_view(), r),
            seen,
        )
}

/// A mine whose next address no draw of the generator can miss: the /24 it
/// draws in stands below the cap and every host of it is free, or that /24
/// holds the cap and every /24 of the block stands below the cap with every
/// host free.
pub open spec fn owes_address(d: Dig, plan: MinePlan, seen: Set<u32>) -> bool {
    ||| d.taken_view(d.prefix_view()) < plan.per_prefix && hosts_free(d.prefix_view(), seen)
    ||| d.taken_view(d.prefix_view()) >= plan.per_prefix && siblings_free(d, plan, seen)
}

impl Dig {
    /// The numbers that the mine keeps to.
    pub closed spec fn wf(&self, plan: MinePlan) -> bool {
        dig_wf(self.origin, self.block, self.prefix, self.left, self.probed@, plan)
    }

    /// The first hit that started the mine.
    pub closed spec fn origin_view(&self) -> u32 {
        self.origin
    }

    /// The block that the mine stays inside.
    pub closed spec fn block_view(&self) -> u32 {
        self.block
    }

    /// The number of addresses that the mine still gives.
    pub closed spec fn left_view(&self) -> usize {
        self.left
    }

    /// The /24 that the mine draws in now.
    pub closed spec fn prefix_view(&self) -> u32 {
        self.prefix
    }

    /// True when the mine gives its next address at once: it gave none yet.
    pub closed spec fn due_at_once(&self) -> bool {
        self.ready is None
    }

    /// The moment, in nanoseconds since the mine of the hunt was built, that
    /// the mine gives its next address at; none when it owes one at once.
    pub closed spec fn ready_view(&self) -> Option<u128> {
        self.ready
    }

    /// The number of addresses that the mine gave of one /24.
    pub closed spec fn taken_view(&self, prefix: u32) -> usize {
        if self.probed@.contains_key(prefix) {
            self.probed@[prefix]
        } else {
            0
        }
    }

    /// The mine of one first hit, which gives as many addresses as the depth
    /// of the plan.
    pub fn at(origin: u32, plan: MinePlan) -> (d: Dig)
        requires
            plan_wf(plan),
        ensures
            d.wf(plan),
            d.origin_view() == origin,
            d.block_view() == network_bits(origin, plan.prefix),
            d.left_view() == plan.depth,
            d.prefix_view() == network_bits(origin, MINE_GRAIN),
            d.due_at_once(),
            forall|k: u32| d.taken_view(k) == 0,
    {
        let block = network_of(origin, plan.prefix);
        let prefix = network_of(origin, MINE_GRAIN);
        proof {
            lemma_network_nested(origin, plan.prefix);
        }
        Dig {
            origin,
            block,
            prefix,
            left: plan.depth,
            probed: HashMap::new(),
            ready: None,
        }
    }

    /// The number of addresses that this mine already gave of one /24.
    pub fn taken(&self, prefix: u32) -> (n: usize)
        ensures
            n == self.taken_view(prefix),
    {
        match self.probed.get(&prefix) {
            Some(n) => *n,
            None => 0,
        }
    }

    /// A /24 of this mine's block that still stands below the cap of the
    /// plan, drawn at random and not in order, because a walk of the
    /// siblings in order reads as a horizontal scan of the whole block.
    ///
    /// A block whose /24s all hold the cap, and a block whose free /24s no
    /// packet routes to, both give none once the draws run out.
    fn sibling(&self, rng: &mut rand::rngs::StdRng, plan: MinePlan) -> (r: Option<u32>)
        requires
            self.wf(plan),
        ensures
            r matches Some(s) ==> {
                &&& network_bits(s, MINE_GRAIN) == s
                &&& network_bits(s, plan.prefix) == self.block
                &&& self.taken_view(s) < plan.per_prefix
                &&& reserved_block(s) is None
                &&& exists|q: u32| q < span_of(plan) && s == sibling_of(self.block_view(), q)
            },
            siblings_open(*self, plan) ==> r is Some,
    {
        let shift = (MINE_GRAIN - plan.prefix) as u32;
        let span = 1u32 << shift;
        assert(span > 0) by {
            assert(shift <= 16 ==> (1u32 << shift) > 0) by (bit_vector);
        }
        let mut k: usize = 0;
        while k < MINE_ATTEMPTS
            invariant
                self.wf(plan),
                span == 1u32 << shift,
                shift == (24 - plan.prefix) as u32,
                span > 0,
                span == span_of(plan),
                siblings_open(*self, plan) ==> k == 0,
            decreases MINE_ATTEMPTS - k,
        {
            let r = random_below(rng, span);
            let sibling = self.block | (r << 8u32);
            assert(sibling == sibling_of(self.block_view(), r));
            proof {
                lemma_network_idempotent(self.origin, plan.prefix);
                lemma_sibling_in_block(self.block, r, plan.prefix);
            }
            if self.taken(sibling) < plan.per_prefix && reserved(sibling).is_none() {
                return Some(sibling);
            }
            k = k + 1;
        }
        None
    }

    /// The next address of this mine, which no packet of the hunt already
    /// went to.
    ///
    /// The mine fills the /24 of the first hit up to the cap of the plan, and
    /// it then draws a sibling /24 inside its block and fills that one the
    /// same way. A mine whose block holds no free address gives none.
    fn draw(&mut self, rng: &mut rand::rngs::StdRng, plan: MinePlan, visited: &HashSet<u32>) -> (r:
        Option<u32>)
        requires
            old(self).wf(plan),
        ensures
            final(self).wf(plan),
            final(self).origin_view() == old(self).origin_view(),
            final(self).block_view() == old(self).block_view(),
            final(self).left_view() == old(self).left_view(),
            forall|k: u32| final(self).taken_view(k) == old(self).taken_view(k),
            r matches Some(a) ==> {
                &&& !visited@.contains(a)
                &&& reserved_block(a) is None
                &&& network_bits(a, plan.prefix) == final(self).block_view()
                &&& FIRST_HOST <= host_of(a) <= LAST_HOST
                &&& final(self).taken_view(network_bits(a, MINE_GRAIN)) < plan.per_prefix
            },
            owes_address(*old(self), plan, visited@) ==> r is Some,
    {
        let mut k: usize = 0;
        while k < MINE_ATTEMPTS
            invariant
                self.wf(plan),
                self.origin == old(self).origin,
                self.block == old(self).block,
                self.left == old(self).left,
                self.probed@ == old(self).probed@,
                owes_address(*old(self), plan, visited@) ==> k <= 1,
                owes_address(*old(self), plan, visited@) && k == 0 ==> self.prefix == old(self).prefix,
                owes_address(*old(self), plan, visited@) && k == 1 ==> self.taken_view(self.prefix)
                    < plan.per_prefix && hosts_free(self.prefix, visited@),
            decreases MINE_ATTEMPTS - k,
        {
            proof {
                if owes_address(*old(self), plan, visited@) && k == 0 && old(self).taken_view(old(self).prefix)
                    >= plan.per_prefix {
                    assert(siblings_open(*self, plan)) by {
                        assert forall|r: u32| r < span_of(plan) implies self.taken_view(
                            #[trigger] sibling_of(self.block_view(), r),
                        ) < plan.per_prefix && reserved_block(sibling_of(self.block_view(), r)) is None by {
                            assert(old(self).taken_view(sibling_of(old(self).block_view(), r)) < plan.per_prefix);
                        }
                    }
                }
            }
            if self.taken(self.prefix) >= plan.per_prefix {
                match self.sibling(rng, plan) {
                    Some(s) => {
                        proof {
                            if owes_address(*old(self), plan, visited@) {
                                let q = choose|q: u32| q < span_of(plan) && s == sibling_of(self.block_view(), q);
                                assert(old(self).taken_view(sibling_of(old(self).block_view(), q))
                                    < plan.per_prefix);
                            }
                        }
                        self.prefix = s;
                    },
                    None => {
                        return None;
                    },
                }
            } else {
                let host = random_through(rng, FIRST_HOST, LAST_HOST);
                let addr = self.prefix | (host as u32);
                proof {
                    lemma_host_in_prefix(self.prefix, host, plan.prefix);
                    lemma_host_in_prefix(self.prefix, host, 24);
                    assert(addr == host_at(self.prefix, host));
                }
                if reserved(addr).is_none() && !visited.contains(&addr) {
                    return Some(addr);
                }
            }
            k = k + 1;
        }
        None
    }
}

/// The mine of the near space of the longest path that a hunt measured: the
/// record of the whole hunt, and the one mine that stands.
pub struct Mine {
    /// The numbers that bound each mine.
    plan: MinePlan,
    /// The sequence that each mine draws its addresses from.
    rng: rand::rngs::StdRng,
    /// The clock that times the wait between two addresses of one mine.
    clock: Box<dyn Clock>,
    /// The moment that the mine was built, from which it counts its time.
    start: std::time::Instant,
    /// The length of the longest path that the hunt measured so far.
    record: Option<u8>,
    /// The mine that stands now. A hunt whose last mine ran out holds none.
    dig: Option<Dig>,
}

/// A mine after a destination of this address gave a path of this length:
/// the first result, and every result that beats the record, starts a new
/// mine at that destination, whose first address waits for no clock; a
/// result that ties or trails the record changes nothing.
pub open spec fn scored_spec(m: Mine, m2: Mine, addr: u32, length: u8) -> bool {
    &&& m2.plan_view() == m.plan_view()
    &&& match m.record_view() {
        Some(held) if length <= held => m2 == m,
        _ => {
            &&& m2.record_view() == Some(length)
            &&& m2.origin_view() == Some(addr)
            &&& m2.left_view() == Some(m.plan_view().depth)
            &&& m2.fresh_view()
            &&& m2.dig_view() matches Some(d) && {
                &&& d.prefix_view() == network_bits(addr, MINE_GRAIN)
                &&& d.block_view() == network_bits(addr, m.plan_view().prefix)
                &&& forall|k: u32| d.taken_view(k) == 0
            }
        },
    }
}

/// The wait of a plan between two addresses of one mine, in nanoseconds.
pub open spec fn delay_nanos(plan: MinePlan) -> int {
    plan.delay.total_millis() * 1_000_000
}

/// The moment that a mine which gave an address at `now` gives its next one
/// at: the delay of the plan later, or at once when that moment runs past
/// the count.
pub open spec fn next_ready(plan: MinePlan, now: u128) -> Option<u128> {
    if now + delay_nanos(plan) <= u128::MAX {
        Some((now + delay_nanos(plan)) as u128)
    } else {
        None
    }
}

/// What one ask of a mine at `now` keeps to: a mine that waits for a later
/// moment gives nothing and stays as it stood, and a mine that gives an
/// address and still stands waits the delay of its plan from `now`.
pub open spec fn mine_waits(m0: Mine, now: u128, r: Option<Pick>, m1: Mine) -> bool {
    &&& (m0.dig_view() matches Some(d) && d.ready_view() matches Some(t) && now < t) ==> r is None
        && m1.dig_view() == m0.dig_view()
    &&& (r is Some && m1.dig_view() is Some) ==> m1.dig_view().unwrap().ready_view() == next_ready(
        m0.plan_view(),
        now,
    )
}

/// The wait of a plan between two addresses of one mine, in nanoseconds.
fn delay_of(plan: MinePlan) -> (d: u128)
    requires
        plan.delay.wf(),
    ensures
        d == delay_nanos(plan),
{
    plan.delay.secs as u128 * 1_000_000_000 + plan.delay.millis as u128 * 1_000_000
}

/// A mine that gave an address at the moment `t` gives no address at any
/// moment before `t` and the delay of its plan, however often it is asked
/// in between.
pub proof fn law_mine_waits_its_delay(
    m0: Mine,
    m1: Mine,
    m2: Mine,
    t: u128,
    t2: u128,
    r1: Option<Pick>,
    r2: Option<Pick>,
)
    requires
        mine_waits(m0, t, r1, m1),
        r1 is Some,
        m1.dig_view() is Some,
        m1.plan_view() == m0.plan_view(),
        mine_waits(m1, t2, r2, m2),
        t + delay_nanos(m0.plan_view()) <= u128::MAX,
        t2 < t + delay_nanos(m0.plan_view()),
    ensures
        r2 is None,
        m2.dig_view() == m1.dig_view(),
{
}

impl Mine {
    /// The numbers that the mine keeps to.
    pub closed spec fn wf(&self) -> bool {
        &&& plan_wf(self.plan)
        &&& (self.dig matches Some(d) ==> d.wf(self.plan))
    }

    /// The plan of the mine.
    pub closed spec fn plan_view(&self) -> MinePlan {
        self.plan
    }

    /// The length of the longest path that the hunt measured so far.
    pub closed spec fn record_view(&self) -> Option<u8> {
        self.record
    }

    /// The first hit of the mine that stands, when one stands.
    pub closed spec fn origin_view(&self) -> Option<u32> {
        match self.dig {
            Some(d) => Some(d.origin_view()),
            None => None,
        }
    }

    /// The number of addresses that the mine that stands still gives.
    pub closed spec fn left_view(&self) -> Option<usize> {
        match self.dig {
            Some(d) => Some(d.left_view()),
            None => None,
        }
    }

    /// The mine that stands, when one does.
    pub closed spec fn dig_view(&self) -> Option<Dig> {
        self.dig
    }

    /// True when a mine stands that gave no address yet, so its first
    /// address waits for no clock.
    pub closed spec fn fresh_view(&self) -> bool {
        self.dig matches Some(d) && d.due_at_once()
    }

    /// Builds the mine of one hunt. The mine draws on a sequence of its own,
    /// seeded by the seed of the hunt shifted by a constant.
    pub fn new(plan: MinePlan, seed: u64, clock: Box<dyn Clock>) -> (m: Mine)
        requires
            plan_wf(plan),
        ensures
            m.wf(),
            m.plan_view() == plan,
            m.record_view() is None,
            m.origin_view() is None,
    {
        let start = clock.now();
        Mine { plan, rng: seeded_rng(seed ^ MINE_SEED_SHIFT), clock, start, record: None, dig: None }
    }

    /// Starts a mine at this destination when its path is the longest one
    /// the hunt measured.
    ///
    /// The first result of a hunt starts a mine. Every result after it must
    /// beat the record, and a result that ties it starts none.
    pub fn scored(&mut self, addr: u32, length: u8)
        requires
            old(self).wf(),
        ensures
            final(self).wf(),
            scored_spec(*old(self), *final(self), addr, length),
    {
        match self.record {
            Some(held) => {
                if length <= held {
                    return;
                }
            },
            None => {},
        }
        self.record = Some(length);
        self.dig = Some(Dig::at(addr, self.plan));
    }

    /// The next address of the mine that stands, when one stands and it is
    /// due at `now`, in nanoseconds since the mine was built.
    ///
    /// A mine that gave every address of its depth, and a mine whose block
    /// holds no free address, both end here and stand no longer.
    pub fn address_at(&mut self, visited: &HashSet<u32>, now: u128) -> (r: Option<Pick>)
        requires
            old(self).wf(),
        ensures
            final(self).wf(),
            final(self).plan_view() == old(self).plan_view(),
            final(self).record_view() == old(self).record_view(),
            old(self).origin_view() is None ==> r is None,
            r matches Some(p) ==> {
                &&& old(self).origin_view() matches Some(o) && p.mine == Some(o)
                &&& !visited@.contains(p.addr)
                &&& reserved_block(p.addr) is None
                &&& network_bits(p.addr, old(self).plan_view().prefix) == network_bits(
                    p.mine.unwrap(),
                    old(self).plan_view().prefix,
                )
                &&& FIRST_HOST <= host_of(p.addr) <= LAST_HOST
                &&& old(self).left_view() matches Some(left) && (if left == 1 {
                    final(self).origin_view() is None
                } else {
                    final(self).origin_view() == old(self).origin_view() && final(self).left_view()
                        == Some((left - 1) as usize)
                })
            },
            r is None ==> (final(self).origin_view() is None || final(self).origin_view()
                == old(self).origin_view()),
            old(self).fresh_view() && owes_address(old(self).dig_view().unwrap(), old(self).plan_view(), visited@)
                ==> r is Some,
            mine_waits(*old(self), now, r, *final(self)),
    {
        let plan = self.plan;
        let mut dig = match self.dig.take() {
            Some(d) => d,
            None => {
                return None;
            },
        };
        let waiting = match dig.ready {
            Some(ready) => now < ready,
            None => false,
        };
        if waiting {
            self.dig = Some(dig);
            return None;
        }
        let addr = match dig.draw(&mut self.rng, plan, visited) {
            Some(a) => a,
            None => {
                return None;
            },
        };
        let origin = dig.origin;
        dig.left = dig.left - 1;
        let grain = network_of(addr, MINE_GRAIN);
        let count = dig.taken(grain);
        dig.probed.insert(grain, count + 1);
        dig.ready = now.checked_add(delay_of(plan));
        if dig.left > 0 {
            self.dig = Some(dig);
        }
        Some(Pick { addr, mine: Some(origin) })
    }

    /// The next address of the mine that stands, when one stands and it is
    /// due.
    ///
    /// The moment of the ask is the one the clock reads now; which moment
    /// that is rests on the clock, and for whatever it reads the ask goes as
    /// `address_at` says.
    ///
    /// A mine that gave every address of its depth, and a mine whose block
    /// holds no free address, both end here and stand no longer.
    pub fn address(&mut self, visited: &HashSet<u32>) -> (r: Option<Pick>)
        requires
            old(self).wf(),
        ensures
            final(self).wf(),
            final(self).plan_view() == old(self).plan_view(),
            final(self).record_view() == old(self).record_view(),
            old(self).origin_view() is None ==> r is None,
            r matches Some(p) ==> {
                &&& old(self).origin_view() matches Some(o) && p.mine == Some(o)
                &&& !visited@.contains(p.addr)
                &&& reserved_block(p.addr) is None
                &&& network_bits(p.addr, old(self).plan_view().prefix) == network_bits(
                    p.mine.unwrap(),
                    old(self).plan_view().prefix,
                )
                &&& FIRST_HOST <= host_of(p.addr) <= LAST_HOST
                &&& old(self).left_view() matches Some(left) && (if left == 1 {
                    final(self).origin_view() is None
                } else {
                    final(self).origin_view() == old(self).origin_view() && final(self).left_view()
                        == Some((left - 1) as usize)
                })
            },
            r is None ==> (final(self).origin_view() is None || final(self).origin_view()
                == old(self).origin_view()),
            old(self).fresh_view() && owes_address(old(self).dig_view().unwrap(), old(self).plan_view(), visited@)
                ==> r is Some,
            exists|now: u128| #[trigger] mine_waits(*old(self), now, r, *final(self)),
    {
        let now = self.elapsed(self.clock.now());
        let r = self.address_at(visited, now);
        assert(mine_waits(*old(self), now, r, *self));
        r
    }

    /// The nanoseconds from the building of the mine to `moment`, and zero
    /// for a moment before it. The moments come from the clock, so nothing
    /// is said of the answer.
    fn elapsed(&self, moment: std::time::Instant) -> u128 {
        if instant_before(&moment, &self.start) {
            0
        } else {
            moment.duration_since(self.start).as_nanos()
        }
    }

}

} // verus!

verus! {

/// Where the candidates of a draw come from.
pub enum Candidates {
    /// A list, read in order, that runs out at its end.
    Listed {
        /// The candidates.
        items: Vec<u32>,
        /// The place of the next candidate.
        next: usize,
    },
    /// The seeded pseudo-random sequence of a real hunt, which never runs
    /// out.
    ///
    /// A hunt of one seed reads the same candidates in the same order as any
    /// other hunt of that seed, for one build of `krt`.
    Seeded(rand::rngs::StdRng),
}

impl Candidates {
    /// The place of a list stands inside the list.
    pub open spec fn wf(&self) -> bool {
        match self {
            Candidates::Listed { items, next } => *next <= items@.len(),
            Candidates::Seeded(_) => true,
        }
    }

    /// The next candidate, or none for a list that ran out.
    fn next(&mut self) -> (r: Option<u32>)
        requires
            old(self).wf(),
        ensures
            final(self).wf(),
            match *old(self) {
                Candidates::Listed { items, next } => {
                    &&& *final(self) matches Candidates::Listed { items: i2, next: n2 }
                    &&& i2@ == items@
                    &&& if next < items@.len() {
                        r == Some(items@[next as int]) && n2 == next + 1
                    } else {
                        r is None && n2 == next
                    }
                },
                Candidates::Seeded(_) => r is Some && *final(self) is Seeded,
            },
    {
        match self {
            Candidates::Listed { items, next } => {
                if *next < items.len() {
                    let c = items[*next];
                    *next = *next + 1;
                    Some(c)
                } else {
                    None
                }
            },
            Candidates::Seeded(rng) => Some(random_bits(rng)),
        }
    }
}

/// True when a candidate routes and the hunt has not seen it.
pub open spec fn passes(a: u32, seen: Set<u32>) -> bool {
    reserved_block(a) is None && !seen.contains(a)
}

/// The place of the first candidate from `from` up to `to` that passes.
pub open spec fn first_passing(items: Seq<u32>, from: int, to: int, seen: Set<u32>) -> Option<int>
    decreases to - from,
{
    if from >= to {
        None
    } else if passes(items[from], seen) {
        Some(from)
    } else {
        first_passing(items, from + 1, to, seen)
    }
}

/// The end of the candidates that one ask reads from the place `next`: the
/// bound of the attempts, or the end of the list.
pub open spec fn window_end(len: int, next: int) -> int {
    if next + ATTEMPTS <= len {
        next + ATTEMPTS
    } else {
        len
    }
}

/// The address that one ask of a list gives from the place `next`.
pub open spec fn next_listed(items: Seq<u32>, next: int, seen: Set<u32>) -> Option<u32> {
    match first_passing(items, next, window_end(items.len() as int, next), seen) {
        Some(i) => Some(items[i]),
        None => None,
    }
}

/// The place of the next candidate of a list after one ask from `next`.
pub open spec fn advanced(items: Seq<u32>, next: int, seen: Set<u32>) -> int {
    match first_passing(items, next, window_end(items.len() as int, next), seen) {
        Some(i) => i + 1,
        None => window_end(items.len() as int, next),
    }
}

/// True when the mine of a draw owes its next address at once.
pub open spec fn mine_owes(mine: Option<Mine>, seen: Set<u32>) -> bool {
    mine matches Some(m) && m.fresh_view() && owes_address(m.dig_view().unwrap(), m.plan_view(), seen)
}

/// The addresses that a draw holds: the ones it handed out, and the one a
/// peek holds back.
pub open spec fn seen_of(handed: Set<u32>, peeked: Option<u32>) -> Set<u32> {
    match peeked {
        Some(p) => handed.insert(p),
        None => handed,
    }
}

/// One more candidate of a list that no earlier one passed.
proof fn lemma_first_passing_step(items: Seq<u32>, from: int, to: int, seen: Set<u32>)
    requires
        from <= to < items.len(),
        first_passing(items, from, to, seen) is None,
    ensures
        first_passing(items, from, to + 1, seen) == if passes(items[to], seen) {
            Some(to)
        } else {
            None::<int>
        },
    decreases to - from,
{
    if from < to {
        lemma_first_passing_step(items, from + 1, to, seen);
    } else {
        assert(first_passing(items, from + 1, to + 1, seen) is None);
    }
}

/// A candidate that passes stays the first one as the window grows.
proof fn lemma_first_passing_extend(items: Seq<u32>, from: int, to: int, end: int, seen: Set<u32>)
    requires
        from <= to <= end,
        first_passing(items, from, to, seen) is Some,
    ensures
        first_passing(items, from, end, seen) == first_passing(items, from, to, seen),
    decreases to - from,
{
    if !passes(items[from], seen) {
        lemma_first_passing_extend(items, from + 1, to, end, seen);
    }
}

/// The draw of one hunt: the source of the candidates, the addresses that
/// the hunt already visited, and the mine of the near space.
pub struct Draw {
    /// The candidates, in the order the draw reads them.
    candidates: Candidates,
    /// Every address that this draw already gave, and the one it holds back
    /// after a peek.
    visited: HashSet<u32>,
    /// The address that a peek took out of the source and that no ask has
    /// taken yet.
    peeked: Option<u32>,
    /// The mine of the near space, when the hunt asked for one.
    mine: Option<Mine>,
}

impl Draw {
    /// The numbers that the draw keeps to.
    pub closed spec fn wf(&self) -> bool {
        &&& self.candidates.wf()
        &&& (self.peeked matches Some(p) ==> self.visited@.contains(p) && reserved_block(p) is None)
        &&& (self.mine matches Some(m) ==> m.wf())
    }

    /// Every address that the draw handed to the hunt so far.
    pub closed spec fn handed(&self) -> Set<u32> {
        match self.peeked {
            Some(p) => self.visited@.remove(p),
            None => self.visited@,
        }
    }

    /// The address that a peek holds back, when one does.
    pub closed spec fn peeked_view(&self) -> Option<u32> {
        self.peeked
    }

    /// True when the draw mines the near space of its records.
    pub closed spec fn mines(&self) -> bool {
        self.mine is Some
    }

    /// The mine of the draw, when the hunt asked for one.
    pub closed spec fn mine_view(&self) -> Option<Mine> {
        self.mine
    }

    /// The candidates of a draw over a list, and the place of the next one;
    /// none for the seeded sequence of a real hunt.
    pub closed spec fn listed_view(&self) -> Option<(Seq<u32>, int)> {
        match self.candidates {
            Candidates::Listed { items, next } => Some((items@, next as int)),
            Candidates::Seeded(_) => None,
        }
    }

    /// The addresses that a draw holds are the ones it handed out and the
    /// one that a peek holds back.
    proof fn lemma_seen(&self)
        requires
            self.wf(),
        ensures
            self.visited@ == seen_of(self.handed(), self.peeked_view()),
    {
        if let Some(p) = self.peeked {
            assert(self.visited@ =~= self.visited@.remove(p).insert(p));
        }
    }

    /// The draw over a list of candidates, read in order.
    pub fn new(candidates: Vec<u32>) -> (d: Draw)
        ensures
            d.listed_view() == Some((candidates@, 0int)),
            d.wf(),
            d.handed() == Set::<u32>::empty(),
            d.peeked_view() is None,
            !d.mines(),
    {
        Draw {
            candidates: Candidates::Listed { items: candidates, next: 0 },
            visited: HashSet::new(),
            peeked: None,
            mine: None,
        }
    }

    /// The draw of a real hunt, over the seeded pseudo-random sequence of
    /// the seed.
    pub fn seeded(seed: u64) -> (d: Draw)
        ensures
            d.listed_view() is None,
            d.wf(),
            d.handed() == Set::<u32>::empty(),
            d.peeked_view() is None,
            !d.mines(),
    {
        Draw {
            candidates: Candidates::Seeded(seeded_rng(seed)),
            visited: HashSet::new(),
            peeked: None,
            mine: None,
        }
    }

    /// The same draw, which mines the near space of every record it hears.
    ///
    /// The mine draws on a sequence of its own, so the addresses that a mine
    /// probes shift no address of the independent draw.
    pub fn mining(self, plan: MinePlan, seed: u64, clock: Box<dyn Clock>) -> (d: Draw)
        requires
            self.wf(),
            plan_wf(plan),
        ensures
            d.wf(),
            d.handed() == self.handed(),
            d.peeked_view() == self.peeked_view(),
            d.listed_view() == self.listed_view(),
            d.mines(),
    {
        let mut d = self;
        d.mine = Some(Mine::new(plan, seed, clock));
        d
    }

    /// The next candidate that routes and that this hunt has not visited.
    ///
    /// The draw reads candidates until one of them passes. A source that ran
    /// out, and a source that gave as many rejected candidates as the bound of
    /// the attempts, both give no address.
    fn take(&mut self) -> (r: Option<u32>)
        requires
            old(self).wf(),
        ensures
            final(self).wf(),
            final(self).peeked == old(self).peeked,
            final(self).mine == old(self).mine,
            match r {
                Some(a) => {
                    &&& !old(self).visited@.contains(a)
                    &&& reserved_block(a) is None
                    &&& final(self).visited@ == old(self).visited@.insert(a)
                },
                None => final(self).visited@ == old(self).visited@,
            },
            match old(self).listed_view() {
                Some((items, next)) => {
                    &&& r == next_listed(items, next, old(self).visited@)
                    &&& final(self).listed_view() matches Some((i2, n2)) && i2 == items && n2 == match first_passing(
                        items,
                        next,
                        window_end(items.len() as int, next),
                        old(self).visited@,
                    ) {
                        Some(i) => i + 1,
                        None => window_end(items.len() as int, next),
                    }
                },
                None => final(self).listed_view() is None,
            },
    {
        let ghost start = old(self).listed_view();
        let ghost seen = old(self).visited@;
        let mut k: usize = 0;
        while k < ATTEMPTS
            invariant
                self.wf(),
                self.peeked == old(self).peeked,
                self.mine == old(self).mine,
                self.visited@ == old(self).visited@,
                seen == old(self).visited@,
                start == old(self).listed_view(),
                0 <= k <= ATTEMPTS,
                match start {
                    Some((items, n0)) => self.listed_view() matches Some((i2, n2)) && i2 == items && n2 == n0 + k
                        && n2 <= items.len() && first_passing(items, n0, n2, seen) is None,
                    None => self.listed_view() is None,
                },
            decreases ATTEMPTS - k,
        {
            let ghost before = self.listed_view();
            let candidate = match self.candidates.next() {
                Some(c) => c,
                None => {
                    return None;
                },
            };
            proof {
                if let Some((items, n0)) = start {
                    let n2 = before.unwrap().1;
                    assert(candidate == items[n2]);
                    lemma_first_passing_step(items, n0, n2, seen);
                }
            }
            if reserved(candidate).is_none() {
                if self.visited.insert(candidate) {
                    proof {
                        if let Some((items, n0)) = start {
                            let n2 = before.unwrap().1;
                            lemma_first_passing_extend(items, n0, n2 + 1, window_end(items.len() as int, n0), seen);
                        }
                    }
                    return Some(candidate);
                }
            }
            k = k + 1;
        }
        None
    }

    /// The next address to trace, without taking it.
    ///
    /// The search for the source address of a hunt reads the route to one
    /// destination, and the first destination of the hunt is that one. The
    /// address stays in the draw, so the hunt traces it as its first round.
    pub fn peek(&mut self) -> (r: Option<u32>)
        requires
            old(self).wf(),
        ensures
            final(self).wf(),
            final(self).handed() == old(self).handed(),
            final(self).mines() == old(self).mines(),
            r == final(self).peeked_view(),
            old(self).peeked_view() is Some ==> r == old(self).peeked_view(),
            r matches Some(a) ==> !old(self).handed().contains(a) && reserved_block(a) is None,
            old(self).peeked_view() is None ==> match old(self).listed_view() {
                Some((items, next)) => {
                    &&& r == next_listed(items, next, old(self).handed())
                    &&& final(self).listed_view() == Some((items, advanced(items, next, old(self).handed())))
                },
                None => final(self).listed_view() is None,
            },
            old(self).peeked_view() is Some ==> final(self).listed_view() == old(self).listed_view(),
    {
        if self.peeked.is_none() {
            let taken = self.take();
            self.peeked = taken;
            proof {
                if let Some(a) = taken {
                    assert(self.visited@.remove(a) =~= old(self).visited@);
                }
            }
        }
        self.peeked
    }

    /// The next address of the mine that stands, and no address of the
    /// source of the candidates.
    ///
    /// A hunt that already holds the rounds it wants takes this door: the
    /// addresses of a mine cost no round, so such a hunt still finishes the
    /// mine it started.
    pub fn mined(&mut self) -> (r: Option<Pick>)
        requires
            old(self).wf(),
        ensures
            final(self).wf(),
            final(self).peeked_view() == old(self).peeked_view(),
            final(self).mines() == old(self).mines(),
            !old(self).mines() ==> r is None,
            match r {
                Some(p) => {
                    &&& p.mine is Some
                    &&& !old(self).handed().contains(p.addr)
                    &&& old(self).peeked_view() != Some(p.addr)
                    &&& reserved_block(p.addr) is None
                    &&& final(self).handed() == old(self).handed().insert(p.addr)
                },
                None => final(self).handed() == old(self).handed(),
            },
            final(self).listed_view() == old(self).listed_view(),
            mine_owes(old(self).mine_view(), seen_of(old(self).handed(), old(self).peeked_view())) ==> r is Some,
            old(self).mine_view() matches Some(m0) ==> final(self).mine_view() is Some && exists|now: u128|
                #[trigger] mine_waits(m0, now, r, final(self).mine_view().unwrap()),
    {
        proof {
            self.lemma_seen();
        }
        let mut mine = match self.mine.take() {
            Some(m) => m,
            None => {
                return None;
            },
        };
        let found = mine.address(&self.visited);
        self.mine = Some(mine);
        match found {
            Some(pick) => {
                self.visited.insert(pick.addr);
                proof {
                    match self.peeked {
                        Some(q) => {
                            assert(self.visited@.remove(q) =~= old(self).visited@.remove(q).insert(
                                pick.addr,
                            ));
                        },
                        None => {},
                    }
                }
                Some(pick)
            },
            None => None,
        }
    }

    /// The next address to trace: from a mine when one is due, and from the
    /// source of the candidates when none is.
    ///
    /// Every address that the draw gives routes, and no address comes twice.
    pub fn address(&mut self) -> (r: Option<Pick>)
        requires
            old(self).wf(),
        ensures
            final(self).wf(),
            final(self).peeked_view() is None || final(self).peeked_view() == old(self).peeked_view(),
            final(self).mines() == old(self).mines(),
            match r {
                Some(p) => {
                    &&& !old(self).handed().contains(p.addr)
                    &&& reserved_block(p.addr) is None
                    &&& final(self).handed() == old(self).handed().insert(p.addr)
                    &&& (p.mine is None && old(self).peeked_view() is Some ==> Some(p.addr) == old(
                        self,
                    ).peeked_view())
                },
                None => final(self).handed() == old(self).handed(),
            },
            old(self).peeked_view() is Some ==> r is Some,
            !old(self).mines() ==> (r matches Some(p) ==> p.mine is None),
            mine_owes(old(self).mine_view(), seen_of(old(self).handed(), old(self).peeked_view())) ==> (r matches Some(
                p,
            ) && p.mine is Some),
            (r matches Some(p) && p.mine is Some) || old(self).peeked_view() is Some ==> final(self).listed_view()
                == old(self).listed_view(),
            old(self).peeked_view() is None ==> match old(self).listed_view() {
                Some((items, next)) => {
                    &&& (r is None || r.unwrap().mine is None) ==> match next_listed(
                        items,
                        next,
                        old(self).handed(),
                    ) {
                        Some(a) => r == Some(Pick { addr: a, mine: None }),
                        None => r is None,
                    } && final(self).listed_view() == Some((items, advanced(items, next, old(self).handed())))
                    &&& next_listed(items, next, old(self).handed()) is Some ==> r is Some
                },
                None => true,
            },
    {
        proof {
            self.lemma_seen();
        }
        match self.mined() {
            Some(pick) => {
                return Some(pick);
            },
            None => {},
        }
        proof {
            self.lemma_seen();
        }
        let ghost middle = self.handed();
        match self.peeked.take() {
            Some(a) => {
                proof {
                    assert(self.visited@ =~= middle.insert(a));
                }
                Some(Pick { addr: a, mine: None })
            },
            None => {
                match self.take() {
                    Some(a) => Some(Pick { addr: a, mine: None }),
                    None => None,
                }
            },
        }
    }

    /// Tells the draw the length of the path that one destination gave, so a
    /// mine starts when that path is the longest one the hunt measured.
    ///
    /// A draw that mines nothing keeps nothing.
    pub fn scored(&mut self, addr: u32, length: u8)
        requires
            old(self).wf(),
        ensures
            final(self).wf(),
            final(self).handed() == old(self).handed(),
            final(self).peeked_view() == old(self).peeked_view(),
            final(self).mines() == old(self).mines(),
            final(self).listed_view() == old(self).listed_view(),
            match old(self).mine_view() {
                Some(m) => final(self).mine_view() matches Some(m2) && scored_spec(m, m2, addr, length),
                None => final(self).mine_view() is None,
            },
    {
        match self.mine.take() {
            Some(mut m) => {
                m.scored(addr, length);
                self.mine = Some(m);
            },
            None => {},
        }
    }
}

} // verus!

//! The score of one destination of a hunt: the rounds of its trace folded by
//! TTL, the TTL that the destination answered at, and its name.
//!
//! The kind and the length of the path, and the holes inside it, are counts
//! of whole probes, so they stand here. The mean time and the loss of the
//! last hop are floating-point numbers: the caller computes them for the TTL
//! that [`Scorer::path`] names and hands their cells to [`Scorer::score`].

use crate::addr::Addr;
use crate::record::{Hop, NameRecord, RoundRecord, RunId};
use crate::summary::{PathKind, Score};
use vstd::prelude::*;

verus! {

/// The number of TTLs that a probe can carry: every value of a `u8`.
pub const TTL_COUNT: usize = 256;

/// A count one higher, held at the largest value a `u64` holds.
pub open spec fn bumped(n: u64) -> u64 {
    if n < u64::MAX {
        (n + 1) as u64
    } else {
        n
    }
}

/// The probes sent at each TTL after one more round: one more at every TTL
/// that the round probed.
pub open spec fn sent_after(sent: Seq<u64>, round: RoundRecord) -> Seq<u64> {
    Seq::new(
        sent.len(),
        |t: int|
            if round.ttl_range.first_of() <= t && t <= round.ttl_range.last_of() {
                bumped(sent[t])
            } else {
                sent[t]
            },
    )
}

/// The answers at each TTL after the hops of one round: one more at the TTL
/// of each hop.
pub open spec fn recv_after(recv: Seq<u64>, hops: Seq<Hop>) -> Seq<u64>
    decreases hops.len(),
{
    if hops.len() == 0 {
        recv
    } else {
        let before = recv_after(recv, hops.drop_last());
        let t = hops.last().ttl as int;
        before.update(t, bumped(before[t]))
    }
}

/// The smallest TTL that the destination answered at, after the hops of one
/// round.
pub open spec fn reached_after(reached: Option<u8>, hops: Seq<Hop>, target: u32) -> Option<u8>
    decreases hops.len(),
{
    if hops.len() == 0 {
        reached
    } else {
        let before = reached_after(reached, hops.drop_last(), target);
        let hop = hops.last();
        if hop.addr == Addr::V4(target) {
            match before {
                Some(t) => if hop.ttl < t {
                    Some(hop.ttl)
                } else {
                    Some(t)
                },
                None => Some(hop.ttl),
            }
        } else {
            before
        }
    }
}

/// The name of the destination after a list of names: the last name of the
/// list that belongs to it, or the name it held before.
pub open spec fn host_after(host: Option<Seq<char>>, names: Seq<NameRecord>, target: u32) -> Option<
    Seq<char>,
>
    decreases names.len(),
{
    if names.len() == 0 {
        host
    } else if names.last().addr == Addr::V4(target) {
        Some(names.last().host@)
    } else {
        host_after(host, names.drop_last(), target)
    }
}

/// The highest TTL below `n` that any hop answered at, or zero.
pub open spec fn deepest_below(recv: Seq<u64>, n: int) -> int
    decreases n,
{
    if n <= 0 {
        0
    } else if recv[n - 1] > 0 {
        n - 1
    } else {
        deepest_below(recv, n - 1)
    }
}

/// The number of TTLs from `low` up to `high` that a round probed and that
/// no hop answered at.
pub open spec fn gaps_between(sent: Seq<u64>, recv: Seq<u64>, low: int, high: int) -> nat
    decreases high - low + 1,
{
    if high < low {
        0
    } else {
        gaps_between(sent, recv, low, high - 1) + if sent[high] > 0 && recv[high] == 0 {
            1nat
        } else {
            0nat
        }
    }
}

/// The number of hops of a list that answered at one TTL.
pub open spec fn answers_at(hops: Seq<Hop>, t: int) -> nat {
    hops.filter(|h: Hop| h.ttl == t).len()
}

/// The count of the answers at a TTL grows by one for each hop that answered
/// at it, and holds at the largest value that a `u64` holds; every other
/// TTL keeps its count.
pub proof fn law_answers_are_counted(recv: Seq<u64>, hops: Seq<Hop>, t: int)
    requires
        recv.len() == TTL_COUNT,
        0 <= t < TTL_COUNT,
    ensures
        recv_after(recv, hops).len() == TTL_COUNT,
        recv_after(recv, hops)[t] == if recv[t] + answers_at(hops, t) <= u64::MAX {
            recv[t] + answers_at(hops, t)
        } else {
            u64::MAX as int
        },
    decreases hops.len(),
{
    if hops.len() > 0 {
        law_answers_are_counted(recv, hops.drop_last(), t);
        reveal(Seq::filter);
        assert(hops.drop_last().filter(|h: Hop| h.ttl == t) == hops.drop_last().filter(|h: Hop| h.ttl == t));
    } else {
        reveal(Seq::filter);
    }
}

/// The TTL that the destination counts as reached at is the smallest TTL
/// that it answered at: one that it did answer at, in this list or before
/// it, and no larger than any TTL of the list at which the destination
/// answered. A destination that never answered stays unreached.
pub proof fn law_reached_is_the_smallest_answering_ttl(reached: Option<u8>, hops: Seq<Hop>, target: u32)
    ensures
        reached_after(reached, hops, target) is None <==> (reached is None && forall|h: int|
            0 <= h < hops.len() ==> (#[trigger] hops[h]).addr != Addr::V4(target)),
        reached_after(reached, hops, target) matches Some(t) ==> {
            &&& reached == Some(t) || exists|h: int|
                0 <= h < hops.len() && (#[trigger] hops[h]).addr == Addr::V4(target) && hops[h].ttl == t
            &&& reached matches Some(r) ==> t <= r
            &&& forall|h: int| 0 <= h < hops.len() && (#[trigger] hops[h]).addr == Addr::V4(target) ==> t <= hops[h].ttl
        },
    decreases hops.len(),
{
    if hops.len() > 0 {
        let rest = hops.drop_last();
        law_reached_is_the_smallest_answering_ttl(reached, rest, target);
        let n = hops.len() - 1;
        assert(hops[n] == hops.last());
        assert forall|h: int| 0 <= h < n implies #[trigger] hops[h] == rest[h] by {}
        let before = reached_after(reached, rest, target);
        if let Some(t0) = before {
            if !(reached == Some(t0)) {
                let h0 = choose|h: int| 0 <= h < rest.len() && (#[trigger] rest[h]).addr == Addr::V4(target) && rest[h].ttl == t0;
                assert(hops[h0] == rest[h0]);
            }
        }
        if reached_after(reached, hops, target) is None {
            assert forall|h: int| 0 <= h < hops.len() implies (#[trigger] hops[h]).addr != Addr::V4(target) by {
                if h < n {
                    assert(hops[h] == rest[h]);
                }
            }
        }
    }
}

/// The name of the destination after a list of names is the name of the
/// last record of the list that names the destination, whole; a list that
/// names it nowhere leaves the name it held.
pub proof fn law_the_last_name_of_the_destination_wins(host: Option<Seq<char>>, names: Seq<NameRecord>, target: u32)
    ensures
        (forall|i: int| 0 <= i < names.len() ==> (#[trigger] names[i]).addr != Addr::V4(target)) ==> host_after(
            host,
            names,
            target,
        ) == host,
        forall|i: int|
            0 <= i < names.len() && (#[trigger] names[i]).addr == Addr::V4(target) && (forall|j: int|
                i < j < names.len() ==> (#[trigger] names[j]).addr != Addr::V4(target)) ==> host_after(
                host,
                names,
                target,
            ) == Some(names[i].host@),
    decreases names.len(),
{
    if names.len() > 0 {
        let rest = names.drop_last();
        let n = names.len() - 1;
        law_the_last_name_of_the_destination_wins(host, rest, target);
        assert(names[n] == names.last());
        assert forall|i: int| 0 <= i < n implies #[trigger] names[i] == rest[i] by {}
        assert forall|i: int|
            0 <= i < names.len() && (#[trigger] names[i]).addr == Addr::V4(target) && (forall|j: int|
                i < j < names.len() ==> (#[trigger] names[j]).addr != Addr::V4(target)) implies host_after(
            host,
            names,
            target,
        ) == Some(names[i].host@) by {
            if i < n {
                assert(names[n].addr != Addr::V4(target));
                assert forall|j: int| i < j < rest.len() implies (#[trigger] rest[j]).addr != Addr::V4(target) by {
                    assert(names[j] == rest[j]);
                }
                assert(rest[i] == names[i]);
            }
        }
        if forall|i: int| 0 <= i < names.len() ==> (#[trigger] names[i]).addr != Addr::V4(target) {
            assert(names[n].addr != Addr::V4(target));
            assert forall|i: int| 0 <= i < rest.len() implies (#[trigger] rest[i]).addr != Addr::V4(target) by {
                assert(names[i] == rest[i]);
            }
        }
    }
}

/// The TTLs from `low` up to `high` that some round probed and where no hop
/// ever answered: the holes of a path. A TTL that answered once is no hole,
/// however many of its probes went unanswered.
pub open spec fn silent_ttls(sent: Seq<u64>, recv: Seq<u64>, low: int, high: int) -> Set<int> {
    Set::new(|t: int| low <= t <= high && sent[t] > 0 && recv[t] == 0)
}

/// The count of the holes of a path is the number of TTLs between its ends
/// that some round probed and that never answered.
pub proof fn law_gaps_count_the_silent_ttls(sent: Seq<u64>, recv: Seq<u64>, low: int, high: int)
    ensures
        silent_ttls(sent, recv, low, high).finite(),
        gaps_between(sent, recv, low, high) == silent_ttls(sent, recv, low, high).len(),
    decreases high - low + 1,
{
    if high < low {
        assert(silent_ttls(sent, recv, low, high) =~= Set::<int>::empty());
    } else {
        law_gaps_count_the_silent_ttls(sent, recv, low, high - 1);
        let before = silent_ttls(sent, recv, low, high - 1);
        assert(!before.contains(high));
        if sent[high] > 0 && recv[high] == 0 {
            assert(silent_ttls(sent, recv, low, high) =~= before.insert(high));
        } else {
            assert(silent_ttls(sent, recv, low, high) =~= before);
        }
    }
}

/// The kind and the length of a path: the TTL that the destination answered
/// at, or the highest TTL that any hop answered at for a destination that
/// answered nothing.
pub open spec fn path_of(reached: Option<u8>, recv: Seq<u64>) -> (PathKind, u8) {
    match reached {
        Some(t) => (PathKind::Reached, t),
        None => (PathKind::Partial, deepest_below(recv, TTL_COUNT as int) as u8),
    }
}

/// The screen of one destination of a hunt while its trace runs.
pub struct Scorer {
    /// The address that this destination stands at.
    addr: u32,
    /// The run that records the trace of it.
    run: RunId,
    /// The first TTL that a round of this trace probes.
    first_ttl: u8,
    /// The number of rounds that probed each TTL.
    sent: Vec<u64>,
    /// The number of hops that answered at each TTL.
    recv: Vec<u64>,
    /// The smallest TTL that the destination itself answered at.
    reached_at: Option<u8>,
    /// The name of the destination that a reverse lookup gave.
    host: Option<String>,
}

/// The largest TTL below the first `n` TTLs that answered is below `n`, and
/// it answered when it is above zero.
pub proof fn lemma_deepest_below(recv: Seq<u64>, n: int)
    requires
        0 <= n <= recv.len(),
    ensures
        0 <= deepest_below(recv, n),
        n > 0 ==> deepest_below(recv, n) < n,
        deepest_below(recv, n) > 0 ==> recv[deepest_below(recv, n)] > 0,
        forall|t: int| deepest_below(recv, n) < t < n ==> recv[t] == 0,
    decreases n,
{
    if n > 0 {
        lemma_deepest_below(recv, n - 1);
    }
}

/// No more TTLs lie between two ends than the ends span.
proof fn lemma_gaps_bound(sent: Seq<u64>, recv: Seq<u64>, low: int, high: int)
    ensures
        high >= low ==> gaps_between(sent, recv, low, high) <= high - low + 1,
        high < low ==> gaps_between(sent, recv, low, high) == 0,
    decreases high - low + 1,
{
    if high >= low {
        lemma_gaps_bound(sent, recv, low, high - 1);
    }
}

impl Scorer {
    /// The number of rounds that probed each TTL.
    pub closed spec fn sent_view(&self) -> Seq<u64> {
        self.sent@
    }

    /// The number of hops that answered at each TTL.
    pub closed spec fn recv_view(&self) -> Seq<u64> {
        self.recv@
    }

    /// The smallest TTL that the destination answered at.
    pub closed spec fn reached_view(&self) -> Option<u8> {
        self.reached_at
    }

    /// The name of the destination, when a lookup gave one.
    pub closed spec fn host_view(&self) -> Option<Seq<char>> {
        match self.host {
            Some(h) => Some(h@),
            None => None,
        }
    }

    /// The address of the destination.
    pub closed spec fn addr_view(&self) -> u32 {
        self.addr
    }

    /// The run that records the trace.
    pub closed spec fn run_view(&self) -> Seq<char> {
        self.run@
    }

    /// The first TTL that a round probes.
    pub closed spec fn first_ttl_view(&self) -> u8 {
        self.first_ttl
    }

    /// The counts hold one entry for each TTL.
    pub closed spec fn wf(&self) -> bool {
        &&& self.sent@.len() == TTL_COUNT
        &&& self.recv@.len() == TTL_COUNT
    }

    /// The screen of a destination that no round reached yet.
    pub fn new(addr: u32, run: RunId, first_ttl: u8) -> (s: Scorer)
        ensures
            s.wf(),
            s.addr_view() == addr,
            s.run_view() == run@,
            s.first_ttl_view() == first_ttl,
            s.sent_view() == Seq::new(TTL_COUNT as nat, |t: int| 0u64),
            s.recv_view() == Seq::new(TTL_COUNT as nat, |t: int| 0u64),
            s.reached_view() is None,
            s.host_view() is None,
    {
        let mut sent: Vec<u64> = Vec::new();
        let mut recv: Vec<u64> = Vec::new();
        let mut k: usize = 0;
        while k < TTL_COUNT
            invariant
                k <= TTL_COUNT,
                sent@ == Seq::new(k as nat, |t: int| 0u64),
                recv@ == Seq::new(k as nat, |t: int| 0u64),
            decreases TTL_COUNT - k,
        {
            sent.push(0);
            recv.push(0);
            k = k + 1;
            proof {
                assert(sent@ =~= Seq::new(k as nat, |t: int| 0u64));
                assert(recv@ =~= Seq::new(k as nat, |t: int| 0u64));
            }
        }
        Scorer { addr, run, first_ttl, sent, recv, reached_at: None, host: None }
    }

    /// A hunt takes no key of the terminal, so this screen asks for no stop.
    pub fn poll(&mut self) -> (quit: bool)
        ensures
            !quit,
            *final(self) == *old(self),
    {
        false
    }

    /// Folds one round into the counts, and keeps the TTL of the destination
    /// when the destination answered.
    ///
    /// Each TTL of the range of the round takes one probe, and the TTL of each
    /// hop takes one answer. The smallest TTL that the destination answered at
    /// wins: a path that changes under a load balancer reaches the destination
    /// at one TTL in one round and at another in the next, and a packet did
    /// reach the destination in the smaller number of hops. A count stops at
    /// the largest value that a `u64` holds.
    pub fn round(&mut self, round: &RoundRecord)
        requires
            old(self).wf(),
        ensures
            final(self).wf(),
            final(self).sent_view() == sent_after(old(self).sent_view(), *round),
            final(self).recv_view() == recv_after(old(self).recv_view(), round.hops@),
            final(self).reached_view() == reached_after(
                old(self).reached_view(),
                round.hops@,
                old(self).addr_view(),
            ),
            final(self).host_view() == old(self).host_view(),
            final(self).addr_view() == old(self).addr_view(),
            final(self).run_view() == old(self).run_view(),
            final(self).first_ttl_view() == old(self).first_ttl_view(),
            forall|t: int|
                0 <= t < TTL_COUNT ==> #[trigger] final(self).recv_view()[t] == if old(self).recv_view()[t]
                    + answers_at(round.hops@, t) <= u64::MAX {
                    old(self).recv_view()[t] + answers_at(round.hops@, t)
                } else {
                    u64::MAX as int
                },
            final(self).reached_view() matches Some(t) ==> {
                &&& old(self).reached_view() == Some(t) || exists|h: int|
                    0 <= h < round.hops@.len() && (#[trigger] round.hops@[h]).addr == Addr::V4(old(self).addr_view())
                        && round.hops@[h].ttl == t
                &&& old(self).reached_view() matches Some(r) ==> t <= r
                &&& forall|h: int|
                    0 <= h < round.hops@.len() && (#[trigger] round.hops@[h]).addr == Addr::V4(old(self).addr_view())
                        ==> t <= round.hops@[h].ttl
            },
            final(self).reached_view() is None <==> (old(self).reached_view() is None && forall|h: int|
                0 <= h < round.hops@.len() ==> (#[trigger] round.hops@[h]).addr != Addr::V4(old(self).addr_view())),
    {
        let ghost sent0 = self.sent@;
        let first = round.ttl_range.first();
        let last = round.ttl_range.last();
        let mut t: usize = 0;
        while t < TTL_COUNT
            invariant
                t <= TTL_COUNT,
                self.sent@.len() == TTL_COUNT,
                self.recv@ == old(self).recv@,
                sent0 == old(self).sent@,
                sent0.len() == TTL_COUNT,
                first == round.ttl_range.first_of(),
                last == round.ttl_range.last_of(),
                forall|q: int|
                    0 <= q < t ==> self.sent@[q] == if first <= q && q <= last {
                        bumped(sent0[q])
                    } else {
                        sent0[q]
                    },
                forall|q: int| t <= q < TTL_COUNT ==> self.sent@[q] == sent0[q],
                self.reached_at == old(self).reached_at,
                self.host == old(self).host,
                self.addr == old(self).addr,
                self.run == old(self).run,
                self.first_ttl == old(self).first_ttl,
            decreases TTL_COUNT - t,
        {
            if first as usize <= t && t <= last as usize {
                let c = self.sent[t];
                let next = if c < u64::MAX {
                    c + 1
                } else {
                    c
                };
                self.sent.set(t, next);
            }
            t = t + 1;
        }
        proof {
            assert(self.sent@ =~= sent_after(sent0, *round));
        }
        let mut h: usize = 0;
        while h < round.hops.len()
            invariant
                h <= round.hops@.len(),
                self.recv@ == recv_after(old(self).recv@, round.hops@.subrange(0, h as int)),
                self.recv@.len() == TTL_COUNT,
                self.reached_at == reached_after(
                    old(self).reached_at,
                    round.hops@.subrange(0, h as int),
                    old(self).addr,
                ),
                self.sent@ == sent_after(sent0, *round),
                sent0 == old(self).sent@,
                self.host == old(self).host,
                self.addr == old(self).addr,
                self.run == old(self).run,
                self.first_ttl == old(self).first_ttl,
            decreases round.hops@.len() - h,
        {
            let hop = &round.hops[h];
            proof {
                assert(round.hops@.subrange(0, h + 1).drop_last() =~= round.hops@.subrange(0, h as int));
                assert(round.hops@.subrange(0, h + 1).last() == round.hops@[h as int]);
            }
            let at = hop.ttl as usize;
            let c = self.recv[at];
            let next = if c < u64::MAX {
                c + 1
            } else {
                c
            };
            self.recv.set(at, next);
            if hop.addr == Addr::V4(self.addr) {
                self.reached_at = match self.reached_at {
                    Some(held) => if hop.ttl < held {
                        Some(hop.ttl)
                    } else {
                        Some(held)
                    },
                    None => Some(hop.ttl),
                };
            }
            h = h + 1;
        }
        proof {
            assert(round.hops@.subrange(0, round.hops@.len() as int) =~= round.hops@);
            law_reached_is_the_smallest_answering_ttl(old(self).reached_at, round.hops@, old(self).addr);
            assert forall|t: int| 0 <= t < TTL_COUNT implies #[trigger] self.recv@[t] == if old(self).recv@[t]
                + answers_at(round.hops@, t) <= u64::MAX {
                old(self).recv@[t] + answers_at(round.hops@, t)
            } else {
                u64::MAX as int
            } by {
                law_answers_are_counted(old(self).recv@, round.hops@, t);
            }
        }
    }

    /// Keeps the name of the destination when a reverse lookup gave one.
    ///
    /// The row of the summary names the destination alone, so the name of any
    /// other address of the path changes nothing. A later name of the
    /// destination replaces an earlier one.
    pub fn names(&mut self, names: &Vec<NameRecord>)
        ensures
            final(self).host_view() == host_after(old(self).host_view(), names@, old(self).addr_view()),
            final(self).sent_view() == old(self).sent_view(),
            final(self).recv_view() == old(self).recv_view(),
            final(self).reached_view() == old(self).reached_view(),
            final(self).addr_view() == old(self).addr_view(),
            final(self).run_view() == old(self).run_view(),
            final(self).first_ttl_view() == old(self).first_ttl_view(),
            old(self).wf() ==> final(self).wf(),
            forall|i: int|
                0 <= i < names@.len() && (#[trigger] names@[i]).addr == Addr::V4(old(self).addr_view()) && (forall|
                    j: int,
                | i < j < names@.len() ==> (#[trigger] names@[j]).addr != Addr::V4(old(self).addr_view()))
                    ==> final(self).host_view() == Some(names@[i].host@),
            (forall|i: int| 0 <= i < names@.len() ==> (#[trigger] names@[i]).addr != Addr::V4(old(self).addr_view()))
                ==> final(self).host_view() == old(self).host_view(),
    {
        proof {
            law_the_last_name_of_the_destination_wins(old(self).host_view(), names@, old(self).addr);
        }
        let mut k: usize = 0;
        while k < names.len()
            invariant
                k <= names@.len(),
                self.host_view() == host_after(old(self).host_view(), names@.subrange(0, k as int), old(self).addr),
                self.sent == old(self).sent,
                self.recv == old(self).recv,
                self.reached_at == old(self).reached_at,
                self.addr == old(self).addr,
                self.run == old(self).run,
                self.first_ttl == old(self).first_ttl,
            decreases names@.len() - k,
        {
            proof {
                assert(names@.subrange(0, k + 1).drop_last() =~= names@.subrange(0, k as int));
                assert(names@.subrange(0, k + 1).last() == names@[k as int]);
            }
            if names[k].addr == Addr::V4(self.addr) {
                self.host = Some(names[k].host.clone());
                proof {
                    assert(self.host_view() == Some(names@[k as int].host@));
                }
            }
            k = k + 1;
        }
        proof {
            assert(names@.subrange(0, names@.len() as int) =~= names@);
        }
    }

    /// The kind and the length of the path that the trace measured so far.
    ///
    /// A destination that answered ends the path at the TTL it answered at,
    /// and one that answered nothing ends the path at the highest TTL that any
    /// hop answered at. A trace that nothing answered for gives a partial path
    /// of length zero, which is a TTL that no probe carries.
    pub fn path(&self) -> (p: (PathKind, u8))
        requires
            self.wf(),
        ensures
            p == path_of(self.reached_view(), self.recv_view()),
    {
        match self.reached_at {
            Some(t) => (PathKind::Reached, t),
            None => {
                let mut deepest: usize = 0;
                let mut t: usize = 0;
                while t < TTL_COUNT
                    invariant
                        t <= TTL_COUNT,
                        self.recv@.len() == TTL_COUNT,
                        deepest == deepest_below(self.recv@, t as int),
                        deepest < 256,
                    decreases TTL_COUNT - t,
                {
                    proof {
                        lemma_deepest_below(self.recv@, t as int);
                    }
                    if self.recv[t] > 0 {
                        deepest = t;
                    }
                    t = t + 1;
                }
                (PathKind::Partial, deepest as u8)
            },
        }
    }

    /// The number of rounds that probed one TTL, and the number of hops that
    /// answered at it: what the loss of that TTL reads.
    pub fn counts_at(&self, ttl: u8) -> (c: (u64, u64))
        requires
            self.wf(),
        ensures
            c == (self.sent_view()[ttl as int], self.recv_view()[ttl as int]),
    {
        (self.sent[ttl as usize], self.recv[ttl as usize])
    }

    /// The number of TTLs from the first TTL of the trace to the end of the
    /// path that a round probed and that no hop answered at.
    ///
    /// A path of no length holds no TTL at all, and it therefore holds no
    /// hole: the mark of a partial path and the length of zero already say
    /// that the trace found nothing.
    pub fn gaps(&self, length: u8) -> (g: usize)
        requires
            self.wf(),
        ensures
            g == gaps_between(self.sent_view(), self.recv_view(), self.first_ttl_view() as int, length as int),
            g == silent_ttls(self.sent_view(), self.recv_view(), self.first_ttl_view() as int, length as int).len(),
    {
        let mut g: usize = 0;
        let mut t: usize = self.first_ttl as usize;
        proof {
            lemma_gaps_bound(self.sent@, self.recv@, self.first_ttl as int, t - 1);
        }
        while t <= length as usize
            invariant
                self.first_ttl as int <= t <= 256,
                t <= length as int + 1 || t == self.first_ttl as int,
                self.sent@.len() == TTL_COUNT,
                self.recv@.len() == TTL_COUNT,
                g == gaps_between(self.sent@, self.recv@, self.first_ttl as int, t - 1),
                g <= t - self.first_ttl,
            decreases 256 - t,
        {
            if self.sent[t] > 0 && self.recv[t] == 0 {
                g = g + 1;
            }
            t = t + 1;
        }
        proof {
            if length < self.first_ttl {
                lemma_gaps_bound(self.sent@, self.recv@, self.first_ttl as int, length as int);
            }
            law_gaps_count_the_silent_ttls(self.sent@, self.recv@, self.first_ttl as int, length as int);
        }
        g
    }

    /// What this destination gave: its address, its name, the run that
    /// recorded it, the kind and the length of its path, and the holes inside
    /// that path, beside the time and the loss that the caller read for the
    /// last TTL of the path.
    pub fn score(self, time_key: Option<u64>, avg_cell: String, loss_cell: String) -> (s: Score)
        requires
            self.wf(),
        ensures
            s.addr == self.addr_view(),
            match s.host {
                Some(h) => self.host_view() == Some(h@),
                None => self.host_view() is None,
            },
            s.run@ == self.run_view(),
            (s.kind, s.length) == path_of(self.reached_view(), self.recv_view()),
            s.gaps == gaps_between(
                self.sent_view(),
                self.recv_view(),
                self.first_ttl_view() as int,
                path_of(self.reached_view(), self.recv_view()).1 as int,
            ),
            s.gaps == silent_ttls(
                self.sent_view(),
                self.recv_view(),
                self.first_ttl_view() as int,
                s.length as int,
            ).len(),
            s.time_key == time_key,
            s.avg_cell@ == avg_cell@,
            s.loss_cell@ == loss_cell@,
    {
        let (kind, length) = self.path();
        let gaps = self.gaps(length);
        Score {
            addr: self.addr,
            host: self.host,
            run: self.run,
            kind,
            length,
            time_key,
            avg_cell,
            loss_cell,
            gaps,
        }
    }
}

} // verus!

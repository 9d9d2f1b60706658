//! The reverse DNS fold of one run: every address that a round reports, in one
//! `name` record each.
//!
//! A run sees the same address at many TTLs and in many rounds, and a reverse
//! lookup of an address takes a time that no round waits for. The fold holds
//! the addresses whose lookups have not finished, and the addresses that need
//! no further ask. A turn of the run hands the hops of a round to the fold, and
//! the fold answers with one record for each name that arrived since the turn
//! before it.

use crate::addr::Addr;
use crate::record::{Hop, NameRecord, RunId, Stamp};
use vstd::prelude::*;

verus! {

/// What a reverse lookup of one address holds now.
#[derive(Clone, Debug, PartialEq, Eq)]
pub enum Lookup {
    /// The lookup finished, and the address carries this name.
    Named(String),
    /// The lookup finished, and the address carries no name. A lookup that
    /// failed and a lookup that timed out both land here.
    Nameless,
    /// The lookup has not finished. The caller asks again on a later turn.
    Pending,
}

/// A reverse resolver that never blocks its caller.
pub trait Resolver {
    /// Asks for the name of one address, and answers with whatever the
    /// resolver holds now. The first ask starts the lookup, and every ask
    /// after it reads the answer.
    fn lookup(&self, addr: Addr) -> Lookup;
}

/// A resolver that looks nothing up: `--no-dns` becomes this resolver, so no
/// lookup leaves the machine.
pub struct NoLookups;

impl Resolver for NoLookups {
    fn lookup(&self, addr: Addr) -> (r: Lookup)
        ensures
            r == Lookup::Nameless,
    {
        Lookup::Nameless
    }
}

/// The order of addresses: every address of version 4 before every address
/// of version 6, and the bits of one version in their order.
pub open spec fn addr_key(a: Addr) -> int {
    match a {
        Addr::V4(b) => b as int,
        Addr::V6(b) => 4294967296 + b as int,
    }
}

/// True when the first address comes before the second one.
fn addr_before(a: Addr, b: Addr) -> (r: bool)
    ensures
        r == (addr_key(a) < addr_key(b)),
{
    match (a, b) {
        (Addr::V4(x), Addr::V4(y)) => x < y,
        (Addr::V4(_), Addr::V6(_)) => true,
        (Addr::V6(_), Addr::V4(_)) => false,
        (Addr::V6(x), Addr::V6(y)) => x < y,
    }
}

/// Two addresses of one key are one address.
proof fn lemma_key_unique(a: Addr, b: Addr)
    ensures
        addr_key(a) == addr_key(b) ==> a == b,
{
}

/// Every address of the list stands before the one after it.
pub open spec fn strictly_sorted(s: Seq<Addr>) -> bool {
    forall|i: int, j: int| 0 <= i < j < s.len() ==> addr_key(#[trigger] s[i]) < addr_key(#[trigger] s[j])
}

/// Turns the addresses that a run reports into `name` records.
pub struct Namer {
    /// The resolver that every ask of this namer goes to.
    resolver: Box<dyn Resolver>,
    /// The identifier that every record of this namer carries.
    run: RunId,
    /// The addresses whose lookups have not finished, in order.
    waiting: Vec<Addr>,
    /// The addresses that need no further ask, whether they carry a name or
    /// not.
    settled: Vec<Addr>,
}

/// True when a list holds an address.
fn holds(list: &Vec<Addr>, a: Addr) -> (r: bool)
    ensures
        r == list@.contains(a),
{
    let mut k: usize = 0;
    while k < list.len()
        invariant
            0 <= k <= list@.len(),
            forall|j: int| 0 <= j < k ==> list@[j] != a,
        decreases list@.len() - k,
    {
        if list[k] == a {
            return true;
        }
        k = k + 1;
    }
    false
}

/// Puts an address into its place in an ordered list, when the list does not
/// hold it yet.
fn insert_sorted(list: &mut Vec<Addr>, a: Addr)
    requires
        strictly_sorted(old(list)@),
    ensures
        strictly_sorted(final(list)@),
        final(list)@.to_set() == old(list)@.to_set().insert(a),
{
    let mut p: usize = 0;
    while p < list.len() && addr_before(list[p], a)
        invariant
            0 <= p <= list@.len(),
            strictly_sorted(list@),
            list@ == old(list)@,
            forall|q: int| 0 <= q < p ==> addr_key(#[trigger] list@[q]) < addr_key(a),
        decreases list@.len() - p,
    {
        p = p + 1;
    }
    if p < list.len() && list[p] == a {
        proof {
            assert(list@.to_set() =~= old(list)@.to_set().insert(a));
        }
        return;
    }
    let ghost before = list@;
    proof {
        if p < list@.len() {
            assert(addr_key(list@[p as int]) != addr_key(a)) by {
                lemma_key_unique(list@[p as int], a);
            }
        }
    }
    list.insert(p, a);
    proof {
        assert(list@ =~= before.insert(p as int, a));
        assert forall|i: int, j: int| 0 <= i < j < list@.len() implies addr_key(#[trigger] list@[i])
            < addr_key(#[trigger] list@[j]) by {
            if j < p {
                assert(list@[i] == before[i] && list@[j] == before[j]);
            } else if j == p {
                assert(list@[i] == before[i]);
            } else if i > p {
                assert(list@[i] == before[i - 1] && list@[j] == before[j - 1]);
            } else if i == p {
                assert(list@[j] == before[j - 1]);
                if j - 1 > p {
                    assert(addr_key(before[p as int]) < addr_key(before[j - 1]));
                }
            } else {
                assert(list@[i] == before[i] && list@[j] == before[j - 1]);
            }
        }
        assert forall|x: Addr| #[trigger] list@.to_set().contains(x) <==> before.to_set().insert(
            a,
        ).contains(x) by {
            if list@.to_set().contains(x) {
                let k = choose|k: int| 0 <= k < list@.len() && list@[k] == x;
                if k < p {
                    assert(before[k] == x);
                } else if k > p {
                    assert(before[k - 1] == x);
                }
            }
            if before.to_set().insert(a).contains(x) {
                if x == a {
                    assert(list@[p as int] == a);
                } else {
                    let k = choose|k: int| 0 <= k < before.len() && before[k] == x;
                    if k < p {
                        assert(list@[k] == x);
                    } else {
                        assert(list@[k + 1] == x);
                    }
                }
            }
        }
        assert(list@.to_set() =~= before.to_set().insert(a));
    }
}

/// Takes an address out of an ordered list.
fn remove_from(list: &mut Vec<Addr>, a: Addr)
    requires
        strictly_sorted(old(list)@),
    ensures
        strictly_sorted(final(list)@),
        final(list)@.to_set() == old(list)@.to_set().remove(a),
{
    let mut p: usize = 0;
    while p < list.len()
        invariant
            0 <= p <= list@.len(),
            list@ == old(list)@,
            strictly_sorted(list@),
            forall|q: int| 0 <= q < p ==> list@[q] != a,
        decreases list@.len() - p,
    {
        if list[p] == a {
            let ghost before = list@;
            list.remove(p);
            proof {
                assert(list@ =~= before.remove(p as int));
                assert forall|i: int, j: int| 0 <= i < j < list@.len() implies addr_key(#[trigger] list@[i])
                    < addr_key(#[trigger] list@[j]) by {
                    if j < p {
                        assert(list@[i] == before[i] && list@[j] == before[j]);
                    } else if i < p {
                        assert(list@[i] == before[i] && list@[j] == before[j + 1]);
                    } else {
                        assert(list@[i] == before[i + 1] && list@[j] == before[j + 1]);
                    }
                }
                assert forall|x: Addr| #[trigger] list@.to_set().contains(x) <==> before.to_set().remove(
                    a,
                ).contains(x) by {
                    if before.to_set().remove(a).contains(x) {
                        let k = choose|k: int| 0 <= k < before.len() && before[k] == x;
                        if k < p {
                            assert(list@[k] == x);
                        } else {
                            assert(k != p);
                            assert(list@[k - 1] == x);
                        }
                    }
                    if list@.to_set().contains(x) {
                        let k = choose|k: int| 0 <= k < list@.len() && list@[k] == x;
                        if k < p {
                            assert(before[k] == x);
                        } else {
                            assert(before[k + 1] == x);
                            lemma_key_unique(before[k + 1], a);
                            assert(addr_key(before[p as int]) < addr_key(before[k + 1]));
                        }
                    }
                }
                assert(list@.to_set() =~= before.to_set().remove(a));
            }
            return;
        }
        p = p + 1;
    }
    proof {
        assert(list@.to_set() =~= old(list)@.to_set().remove(a));
    }
}

/// The addresses of the hops of a round.
pub open spec fn hop_addrs(hops: Seq<Hop>) -> Set<Addr> {
    hops.map_values(|h: Hop| h.addr).to_set()
}

/// The addresses that a turn asks about: the ones that waited, and the ones
/// that the round reported, unless they stand settled.
pub open spec fn asked_set(waiting: Set<Addr>, hops: Seq<Hop>, settled: Set<Addr>) -> Set<Addr> {
    waiting.union(hop_addrs(hops)).difference(settled)
}

/// True when the records of one turn hold what the resolver answered for
/// the addresses it was asked about, `answers[k]` being the answer for
/// `asked[k]`: every record carries an address that was asked and exactly the
/// name that the resolver answered for it, and every address that the
/// resolver named takes a record.
pub open spec fn landed(asked: Seq<Addr>, answers: Seq<Lookup>, records: Seq<NameRecord>) -> bool {
    &&& forall|q: int|
        0 <= q < records.len() ==> exists|k: int|
            0 <= k < asked.len() && asked[k] == (#[trigger] records[q]).addr && answers[k] == Lookup::Named(
                records[q].host,
            )
    &&& forall|k: int|
        0 <= k < asked.len() && (#[trigger] answers[k]) is Named ==> exists|q: int|
            0 <= q < records.len() && records[q].addr == asked[k]
}

/// The record of an address that the resolver named carries that name, as
/// the resolver gave it: an address that was asked once takes the name of
/// its one answer, whole.
pub proof fn law_records_carry_the_answered_names(
    asked: Seq<Addr>,
    answers: Seq<Lookup>,
    records: Seq<NameRecord>,
    k: int,
    host: String,
)
    requires
        strictly_sorted(asked),
        landed(asked, answers, records),
        0 <= k < asked.len(),
        answers[k] == Lookup::Named(host),
    ensures
        exists|q: int| 0 <= q < records.len() && (#[trigger] records[q]).addr == asked[k] && records[q].host == host,
        forall|q: int| 0 <= q < records.len() && (#[trigger] records[q]).addr == asked[k] ==> records[q].host == host,
{
    assert(answers[k] is Named);
    let q0 = choose|q: int| 0 <= q < records.len() && records[q].addr == asked[k];
    assert forall|q: int| 0 <= q < records.len() && (#[trigger] records[q]).addr == asked[k] implies records[q].host
        == host by {
        let m = choose|m: int|
            0 <= m < asked.len() && asked[m] == records[q].addr && answers[m] == Lookup::Named(records[q].host);
        if m < k {
            assert(addr_key(asked[m]) < addr_key(asked[k]));
        } else if m > k {
            assert(addr_key(asked[k]) < addr_key(asked[m]));
        }
    }
    assert(records[q0].host == host);
}

impl Namer {
    /// The addresses whose lookups have not finished, in their order.
    pub closed spec fn waiting_list(&self) -> Seq<Addr> {
        self.waiting@
    }

    /// The addresses whose lookups have not finished.
    pub closed spec fn waiting_view(&self) -> Set<Addr> {
        self.waiting@.to_set()
    }

    /// The addresses that need no further ask.
    pub closed spec fn settled_view(&self) -> Set<Addr> {
        self.settled@.to_set()
    }

    /// The identifier that every record of this namer carries.
    pub closed spec fn run_view(&self) -> Seq<char> {
        self.run@
    }

    /// The numbers that the namer keeps to: the addresses that wait stand in
    /// order, and no address both waits and stands settled.
    pub closed spec fn wf(&self) -> bool {
        &&& strictly_sorted(self.waiting@)
        &&& self.waiting@.to_set().disjoint(self.settled@.to_set())
    }

    /// A namer that asks this resolver and stamps every record with this run.
    pub fn new(resolver: Box<dyn Resolver>, run: RunId) -> (n: Namer)
        ensures
            n.wf(),
            n.waiting_view() == Set::<Addr>::empty(),
            n.settled_view() == Set::<Addr>::empty(),
            n.run_view() == run@,
    {
        let n = Namer { resolver, run, waiting: Vec::new(), settled: Vec::new() };
        proof {
            assert(n.waiting@.to_set() =~= Set::<Addr>::empty());
            assert(n.settled@.to_set() =~= Set::<Addr>::empty());
        }
        n
    }

    /// Reads the addresses that a round reported, asks the resolver about
    /// every address whose lookup has not finished, and answers with one
    /// record for each name that arrived.
    ///
    /// A turn that saw no round passes no hop, so a lookup that finishes
    /// between two rounds still lands. One address takes one record in one
    /// run, whatever the number of TTLs it answers at and whatever the number
    /// of rounds it appears in: a record names an address that did not stand
    /// settled, and that address stands settled from then on.
    pub fn names(&mut self, hops: &Vec<Hop>, now: Stamp) -> (records: Vec<NameRecord>)
        requires
            old(self).wf(),
        ensures
            final(self).wf(),
            final(self).run_view() == old(self).run_view(),
            old(self).settled_view().subset_of(final(self).settled_view()),
            final(self).settled_view().subset_of(
                old(self).settled_view().union(asked_set(old(self).waiting_view(), hops@, old(self).settled_view())),
            ),
            final(self).waiting_view() == asked_set(old(self).waiting_view(), hops@, old(self).settled_view()).difference(
                final(self).settled_view(),
            ),
            forall|k: int|
                0 <= k < records@.len() ==> {
                    &&& asked_set(old(self).waiting_view(), hops@, old(self).settled_view()).contains(
                        (#[trigger] records@[k]).addr,
                    )
                    &&& !old(self).settled_view().contains(records@[k].addr)
                    &&& final(self).settled_view().contains(records@[k].addr)
                    &&& records@[k].run@ == old(self).run_view()
                    &&& records@[k].ts == now
                },
            forall|i: int, j: int|
                0 <= i < j < records@.len() ==> addr_key((#[trigger] records@[i]).addr) < addr_key(
                    (#[trigger] records@[j]).addr,
                ),
            exists|asked: Seq<Addr>, answers: Seq<Lookup>|
                #[trigger] landed(asked, answers, records@) && strictly_sorted(asked) && asked.to_set() == asked_set(
                    old(self).waiting_view(),
                    hops@,
                    old(self).settled_view(),
                ) && answers.len() == asked.len() && forall|k: int|
                    0 <= k < asked.len() ==> (final(self).settled_view().contains(#[trigger] asked[k]) <==> !(
                    answers[k] is Pending)),
    {
        let ghost old_waiting = self.waiting@.to_set();
        let ghost old_settled = self.settled@.to_set();
        let mut h: usize = 0;
        while h < hops.len()
            invariant
                0 <= h <= hops@.len(),
                strictly_sorted(self.waiting@),
                self.settled@.to_set() == old_settled,
                self.run@ == old(self).run@,
                self.waiting@.to_set() == old_waiting.union(hop_addrs(hops@.subrange(0, h as int))).difference(
                    old_settled,
                ),
                old_waiting.disjoint(old_settled),
            decreases hops@.len() - h,
        {
            let a = hops[h].addr;
            proof {
                assert(hops@.subrange(0, h + 1).map_values(|x: Hop| x.addr) =~= hops@.subrange(
                    0,
                    h as int,
                ).map_values(|x: Hop| x.addr).push(a));
                (hops@.subrange(0, h as int).map_values(|x: Hop| x.addr)).lemma_push_to_set_commute(a);
            }
            if !holds(&self.settled, a) {
                insert_sorted(&mut self.waiting, a);
            }
            proof {
                assert(self.waiting@.to_set() =~= old_waiting.union(hop_addrs(hops@.subrange(0, h + 1))).difference(
                    old_settled,
                ));
            }
            h = h + 1;
        }
        proof {
            assert(hops@.subrange(0, hops@.len() as int) =~= hops@);
        }
        proof {
            assert(self.waiting@.to_set().disjoint(self.settled@.to_set()));
        }
        let mut answers: Vec<Lookup> = Vec::new();
        let mut k: usize = 0;
        while k < self.waiting.len()
            invariant
                0 <= k <= self.waiting@.len(),
                answers@.len() == k,
            decreases self.waiting@.len() - k,
        {
            answers.push(self.resolver.lookup(self.waiting[k]));
            k = k + 1;
        }
        let ghost asked_list = self.waiting@;
        let records = self.land(&answers, now);
        assert(landed(asked_list, answers@, records@));
        records
    }

    /// Lands the answers of one turn: `answers[k]` is what the resolver
    /// answered for the `k`-th address that waits, in order.
    ///
    /// Each name that arrived becomes one record, which carries the name
    /// whole; an address that was named or found nameless stands settled, and
    /// an address whose lookup has not finished keeps waiting.
    pub fn land(&mut self, answers: &Vec<Lookup>, now: Stamp) -> (records: Vec<NameRecord>)
        requires
            old(self).wf(),
            answers@.len() == old(self).waiting_list().len(),
        ensures
            final(self).wf(),
            final(self).run_view() == old(self).run_view(),
            old(self).settled_view().subset_of(final(self).settled_view()),
            final(self).settled_view().subset_of(old(self).settled_view().union(old(self).waiting_view())),
            final(self).waiting_view() == old(self).waiting_view().difference(final(self).settled_view()),
            forall|k: int|
                0 <= k < answers@.len() ==> (final(self).settled_view().contains(
                    #[trigger] old(self).waiting_list()[k],
                ) <==> !(answers@[k] is Pending)),
            landed(old(self).waiting_list(), answers@, records@),
            forall|q: int|
                0 <= q < records@.len() ==> {
                    &&& old(self).waiting_view().contains((#[trigger] records@[q]).addr)
                    &&& !old(self).settled_view().contains(records@[q].addr)
                    &&& final(self).settled_view().contains(records@[q].addr)
                    &&& records@[q].run@ == old(self).run_view()
                    &&& records@[q].ts == now
                },
            forall|i: int, j: int|
                0 <= i < j < records@.len() ==> addr_key((#[trigger] records@[i]).addr) < addr_key(
                    (#[trigger] records@[j]).addr,
                ),
    {
        let ghost old_settled = self.settled@.to_set();
        let ghost asked = self.waiting@.to_set();
        let ghost asked_list = self.waiting@;
        let mut records: Vec<NameRecord> = Vec::new();
        let mut settled_now: Vec<Addr> = Vec::new();
        let ghost mut idx: Seq<int> = Seq::empty();
        let mut k: usize = 0;
        while k < self.waiting.len()
            invariant
                0 <= k <= self.waiting@.len(),
                self.waiting@ == asked_list,
                strictly_sorted(asked_list),
                asked == asked_list.to_set(),
                self.run@ == old(self).run@,
                forall|q: int| 0 <= q < settled_now@.len() ==> asked.contains(#[trigger] settled_now@[q]),
                idx.len() == records@.len(),
                forall|q: int|
                    0 <= q < records@.len() ==> {
                        &&& 0 <= #[trigger] idx[q] < k
                        &&& records@[q].addr == asked_list[idx[q]]
                        &&& settled_now@.contains(records@[q].addr)
                        &&& records@[q].run@ == old(self).run@
                        &&& records@[q].ts == now
                    },
                forall|i: int, j: int| 0 <= i < j < idx.len() ==> #[trigger] idx[i] < #[trigger] idx[j],
                answers@.len() == asked_list.len(),
                forall|q: int| 0 <= q < records@.len() ==> answers@[#[trigger] idx[q]] == Lookup::Named(records@[q].host),
                forall|m: int|
                    0 <= m < k && (#[trigger] answers@[m]) is Named ==> exists|q: int| 0 <= q < records@.len() && idx[q] == m,
                forall|m: int|
                    0 <= m < k ==> (settled_now@.contains(#[trigger] asked_list[m]) <==> !(answers@[m] is Pending)),
                forall|q: int|
                    0 <= q < settled_now@.len() ==> exists|m: int|
                        0 <= m < k && asked_list[m] == #[trigger] settled_now@[q],
            decreases asked_list.len() - k,
        {
            let a = self.waiting[k];
            let ghost before_now = settled_now@;
            proof {
                assert forall|m: int| 0 <= m < k implies #[trigger] asked_list[m] != a by {
                    assert(addr_key(asked_list[m]) < addr_key(asked_list[k as int]));
                }
            }
            match &answers[k] {
                Lookup::Named(name) => {
                    let host = name.clone();
                    let ghost before = records@;
                    let ghost before_settled = settled_now@;
                    records.push(NameRecord { run: self.run.copy(), ts: now, addr: a, host });
                    settled_now.push(a);
                    proof {
                        let ghost idx0 = idx;
                        idx = idx.push(k as int);
                        assert(idx[before.len() as int] == k);
                        assert forall|m: int|
                            0 <= m < k + 1 && (#[trigger] answers@[m]) is Named implies exists|q: int|
                            0 <= q < records@.len() && idx[q] == m by {
                            if m < k {
                                let q = choose|q: int| 0 <= q < before.len() && idx0[q] == m;
                                assert(idx[q] == idx0[q]);
                            } else {
                                assert(idx[before.len() as int] == m);
                            }
                        }
                        assert forall|m: int| 0 <= m < k + 1 implies (settled_now@.contains(
                            #[trigger] asked_list[m],
                        ) <==> !(answers@[m] is Pending)) by {
                            assert(settled_now@ == before_now.push(a));
                            if m < k {
                                if settled_now@.contains(asked_list[m]) {
                                    let t = choose|t: int| 0 <= t < settled_now@.len() && settled_now@[t] == asked_list[m];
                                    if t < before_now.len() {
                                        assert(before_now[t] == asked_list[m]);
                                    }
                                }
                                if before_now.contains(asked_list[m]) {
                                    let t = choose|t: int| 0 <= t < before_now.len() && before_now[t] == asked_list[m];
                                    assert(settled_now@[t] == asked_list[m]);
                                }
                            } else {
                                assert(settled_now@[before_now.len() as int] == a);
                            }
                        }
                        assert forall|q: int| 0 <= q < settled_now@.len() implies exists|m: int|
                            0 <= m < k + 1 && asked_list[m] == #[trigger] settled_now@[q] by {
                            if q < before_now.len() {
                                assert(settled_now@[q] == before_now[q]);
                                let m = choose|m: int| 0 <= m < k && asked_list[m] == #[trigger] before_now[q];
                                assert(asked_list[m] == settled_now@[q]);
                            } else {
                                assert(asked_list[k as int] == settled_now@[q]);
                            }
                        }
                        assert forall|q: int| 0 <= q < records@.len() implies {
                            &&& 0 <= #[trigger] idx[q] < k + 1
                            &&& records@[q].addr == asked_list[idx[q]]
                            &&& settled_now@.contains(records@[q].addr)
                            &&& records@[q].run@ == old(self).run@
                            &&& records@[q].ts == now
                        } by {
                            if q < before.len() {
                                assert(records@[q] == before[q]);
                                assert(0 <= idx[q] < k);
                                assert(before_settled.contains(before[q].addr));
                                let t = choose|t: int| 0 <= t < before_settled.len() && before_settled[t] == before[q].addr;
                                assert(settled_now@[t] == before[q].addr);
                            } else {
                                assert(settled_now@[settled_now@.len() - 1] == a);
                            }
                        }
                    }
                },
                Lookup::Nameless => {
                    let ghost before_settled = settled_now@;
                    settled_now.push(a);
                    proof {
                        assert forall|m: int| 0 <= m < k + 1 implies (settled_now@.contains(
                            #[trigger] asked_list[m],
                        ) <==> !(answers@[m] is Pending)) by {
                            assert(settled_now@ == before_now.push(a));
                            if m < k {
                                if settled_now@.contains(asked_list[m]) {
                                    let t = choose|t: int| 0 <= t < settled_now@.len() && settled_now@[t] == asked_list[m];
                                    if t < before_now.len() {
                                        assert(before_now[t] == asked_list[m]);
                                    }
                                }
                                if before_now.contains(asked_list[m]) {
                                    let t = choose|t: int| 0 <= t < before_now.len() && before_now[t] == asked_list[m];
                                    assert(settled_now@[t] == asked_list[m]);
                                }
                            } else {
                                assert(settled_now@[before_now.len() as int] == a);
                            }
                        }
                        assert forall|q: int| 0 <= q < settled_now@.len() implies exists|m: int|
                            0 <= m < k + 1 && asked_list[m] == #[trigger] settled_now@[q] by {
                            if q < before_now.len() {
                                assert(settled_now@[q] == before_now[q]);
                                let m = choose|m: int| 0 <= m < k && asked_list[m] == #[trigger] before_now[q];
                                assert(asked_list[m] == settled_now@[q]);
                            } else {
                                assert(asked_list[k as int] == settled_now@[q]);
                            }
                        }
                        assert forall|q: int| 0 <= q < records@.len() implies settled_now@.contains(
                            (#[trigger] records@[q]).addr,
                        ) by {
                            assert(0 <= idx[q] < k);
                            assert(before_settled.contains(records@[q].addr));
                            let t = choose|t: int| 0 <= t < before_settled.len() && before_settled[t] == records@[q].addr;
                            assert(settled_now@[t] == records@[q].addr);
                        }
                    }
                },
                Lookup::Pending => {
                    proof {
                        if settled_now@.contains(a) {
                            let t = choose|t: int| 0 <= t < settled_now@.len() && settled_now@[t] == a;
                            let m = choose|m: int| 0 <= m < k && asked_list[m] == #[trigger] settled_now@[t];
                            assert(asked_list[m] != a);
                        }
                    }
                },
            }
            k = k + 1;
        }
        proof {
            assert forall|i: int, j: int| 0 <= i < j < records@.len() implies addr_key((#[trigger] records@[i]).addr)
                < addr_key((#[trigger] records@[j]).addr) by {
                assert(idx[i] < idx[j]);
            }
        }
        let ghost moved = settled_now@.to_set();
        let mut s: usize = 0;
        while s < settled_now.len()
            invariant
                0 <= s <= settled_now@.len(),
                strictly_sorted(self.waiting@),
                self.run@ == old(self).run@,
                moved == settled_now@.to_set(),
                moved.subset_of(asked),
                asked.disjoint(old_settled),
                self.waiting@.to_set() == asked.difference(settled_now@.subrange(0, s as int).to_set()),
                self.settled@.to_set() == old_settled.union(settled_now@.subrange(0, s as int).to_set()),
            decreases settled_now@.len() - s,
        {
            let a = settled_now[s];
            proof {
                assert(settled_now@.subrange(0, s + 1) =~= settled_now@.subrange(0, s as int).push(a));
                (settled_now@.subrange(0, s as int)).lemma_push_to_set_commute(a);
            }
            remove_from(&mut self.waiting, a);
            let ghost before = self.settled@;
            self.settled.push(a);
            proof {
                (before).lemma_push_to_set_commute(a);
                assert(self.waiting@.to_set() =~= asked.difference(settled_now@.subrange(0, s + 1).to_set()));
                assert(self.settled@.to_set() =~= old_settled.union(settled_now@.subrange(0, s + 1).to_set()));
            }
            s = s + 1;
        }
        proof {
            assert(settled_now@.subrange(0, settled_now@.len() as int) =~= settled_now@);
            assert(self.waiting@.to_set().disjoint(self.settled@.to_set()));
            assert(self.settled@.to_set().subset_of(old_settled.union(asked)));
            assert(self.waiting@.to_set() =~= asked.difference(self.settled@.to_set()));
            assert forall|q: int| 0 <= q < records@.len() implies exists|m: int|
                0 <= m < asked_list.len() && asked_list[m] == (#[trigger] records@[q]).addr && answers@[m]
                    == Lookup::Named(records@[q].host) by {
                let m = idx[q];
                assert(answers@[idx[q]] == Lookup::Named(records@[q].host));
            }
            assert forall|q: int| 0 <= q < records@.len() implies {
                &&& asked.contains((#[trigger] records@[q]).addr)
                &&& !old_settled.contains(records@[q].addr)
                &&& self.settled@.to_set().contains(records@[q].addr)
                &&& records@[q].run@ == old(self).run@
                &&& records@[q].ts == now
            } by {
                assert(0 <= idx[q] < asked_list.len());
                assert(asked_list.to_set().contains(asked_list[idx[q]]));
                assert(moved.contains(records@[q].addr));
            }
        }
        records
    }
}

} // verus!

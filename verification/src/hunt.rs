//! The pool of one hunt: the destinations it holds in flight, the lanes they
//! probe in, the scores it took, and the two counts that stop it.
//!
//! The hunt traces many destinations at one moment. It starts another one
//! each time one of them stops, and each destination of the pool probes in a
//! lane of its own, which is what keeps two tracers of one process from
//! reading each other's answers.

use crate::draw::{Draw, Pick};
use crate::record::EndReason;
use crate::period::Period;
use crate::session::TraceFailure;
use crate::summary::{Bounds, PathKind, Score, Summary};
use vstd::prelude::*;

verus! {

/// One destination that a hunt holds in flight, and the lane that its tracer
/// probes in.
#[derive(Clone, Copy, Debug, PartialEq, Eq, Structural)]
pub struct Flight {
    /// The destination that this flight traces.
    pub target: u32,
    /// The lane that its tracer probes in.
    pub lane: usize,
}

/// The lanes of a pool: the lanes of the flights, the lanes that no
/// destination holds, and the lane that a start holds for a moment.
pub open spec fn lanes_of(flights: Seq<Flight>, free: Seq<usize>, lent: Option<usize>) -> Seq<usize> {
    flights.map_values(|f: Flight| f.lane) + free + match lent {
        Some(l) => seq![l],
        None => Seq::empty(),
    }
}

/// The pool of one hunt while it runs.
pub struct Pool {
    /// The two numbers that stop the hunt.
    bounds: Bounds,
    /// The number of destinations that the hunt traces at one moment.
    concurrency: usize,
    /// True when a partial path competes for a row of the summary.
    include_partial: bool,
    /// The destinations in flight.
    flights: Vec<Flight>,
    /// The lanes that no destination holds.
    free: Vec<usize>,
    /// The lane that a start holds between the draw and the tracer.
    lent: Option<usize>,
    /// The score of each destination that finished.
    scores: Vec<Score>,
    /// The number of destinations that answered.
    reached: u64,
    /// The number of destinations whose tracer started.
    targets: u64,
    /// True when the draw gave no further address.
    drawn_out: bool,
}

impl Pool {
    /// The numbers that the pool keeps to: every lane of the pool stands in
    /// exactly one place, so no two destinations of one moment hold one
    /// lane, and the pool holds no more destinations than its lanes.
    pub closed spec fn wf(&self) -> bool {
        let lanes = lanes_of(self.flights@, self.free@, self.lent);
        &&& lanes.len() == self.concurrency
        &&& lanes.no_duplicates()
        &&& forall|i: int| 0 <= i < lanes.len() ==> #[trigger] lanes[i] < self.concurrency
        &&& self.reached + self.flights@.len() <= self.targets
    }

    /// The destinations in flight.
    pub closed spec fn flights_view(&self) -> Seq<Flight> {
        self.flights@
    }

    /// The lanes that no destination holds.
    pub closed spec fn free_view(&self) -> Seq<usize> {
        self.free@
    }

    /// The lane that a start holds, when one does.
    pub closed spec fn lent_view(&self) -> Option<usize> {
        self.lent
    }

    /// The scores of the destinations that finished.
    pub closed spec fn scores_view(&self) -> Seq<Score> {
        self.scores@
    }

    /// The number of destinations that answered.
    pub closed spec fn reached_view(&self) -> u64 {
        self.reached
    }

    /// The number of destinations whose tracer started.
    pub closed spec fn targets_view(&self) -> u64 {
        self.targets
    }

    /// True when a partial path competes for a row of the summary.
    pub closed spec fn include_partial_view(&self) -> bool {
        self.include_partial
    }

    /// The number of lanes of the pool.
    pub closed spec fn concurrency_view(&self) -> usize {
        self.concurrency
    }

    /// The two numbers that stop the hunt.
    pub closed spec fn bounds_view(&self) -> Bounds {
        self.bounds
    }

    /// True when the draw gave no further address.
    pub closed spec fn drawn_out_view(&self) -> bool {
        self.drawn_out
    }

    /// The pool of a hunt of these bounds and this many lanes.
    ///
    /// The lanes go in backwards, so the first destination takes the first
    /// lane, and a hunt of one destination at a time reads the lane that a
    /// trace of one destination reads.
    pub fn new(bounds: Bounds, concurrency: usize, include_partial: bool) -> (p: Pool)
        ensures
            p.wf(),
            p.bounds_view() == bounds,
            p.include_partial_view() == include_partial,
            p.concurrency_view() == concurrency,
            p.flights_view().len() == 0,
            p.free_view() == Seq::new(concurrency as nat, |i: int| (concurrency - 1 - i) as usize),
            p.lent_view() is None,
            p.scores_view().len() == 0,
            p.reached_view() == 0,
            p.targets_view() == 0,
            !p.drawn_out_view(),
    {
        let mut free: Vec<usize> = Vec::new();
        let mut k: usize = concurrency;
        while k > 0
            invariant
                0 <= k <= concurrency,
                free@ == Seq::new((concurrency - k) as nat, |i: int| (concurrency - 1 - i) as usize),
            decreases k,
        {
            k = k - 1;
            free.push(k);
            proof {
                assert(free@ =~= Seq::new((concurrency - k) as nat, |i: int| (concurrency - 1 - i) as usize));
            }
        }
        let p = Pool {
            bounds,
            concurrency,
            include_partial,
            flights: Vec::new(),
            free,
            lent: None,
            scores: Vec::new(),
            reached: 0,
            targets: 0,
            drawn_out: false,
        };
        proof {
            let lanes = lanes_of(p.flights@, p.free@, p.lent);
            assert(lanes =~= free@);
            assert forall|i: int, j: int| 0 <= i < lanes.len() && 0 <= j < lanes.len() && i != j implies lanes[i]
                != lanes[j] by {
            }
        }
        p
    }

    /// Whether the hunt starts another destination now.
    pub open spec fn room_spec(&self, stopped: bool) -> bool {
        !self.drawn_out_view() && !stopped && self.reached_view() < self.bounds_view().rounds
            && self.targets_view() < self.bounds_view().max_targets && self.flights_view().len()
            < self.concurrency_view()
    }

    /// Whether the hunt starts another destination now.
    ///
    /// The pool stays full until the rounds the hunt wants answer, and no
    /// destination starts once the user stopped the hunt, the draw ran out,
    /// or the hunt traced as many destinations as its cap.
    pub fn room(&self, stopped: bool) -> (r: bool)
        ensures
            r == self.room_spec(stopped),
    {
        !self.drawn_out && !stopped && self.reached < self.bounds.rounds && self.targets
            < self.bounds.max_targets && self.flights.len() < self.concurrency
    }

    /// Holds a free lane for the destination that the hunt draws next.
    pub fn lend(&mut self) -> (lane: Option<usize>)
        requires
            old(self).wf(),
            old(self).lent_view() is None,
        ensures
            final(self).wf(),
            final(self).flights_view() == old(self).flights_view(),
            final(self).targets_view() == old(self).targets_view(),
            final(self).reached_view() == old(self).reached_view(),
            final(self).scores_view() == old(self).scores_view(),
            final(self).bounds_view() == old(self).bounds_view(),
            final(self).include_partial_view() == old(self).include_partial_view(),
            final(self).concurrency_view() == old(self).concurrency_view(),
            final(self).drawn_out_view() == old(self).drawn_out_view(),
            lane == final(self).lent_view(),
            match lane {
                Some(l) => old(self).free_view().len() > 0 && l == old(self).free_view().last()
                    && final(self).free_view() == old(self).free_view().drop_last(),
                None => old(self).free_view().len() == 0 && final(self).free_view() == old(
                    self,
                ).free_view(),
            },
    {
        let ghost before = lanes_of(self.flights@, self.free@, self.lent);
        let lane = self.free.pop();
        self.lent = lane;
        proof {
            let after = lanes_of(self.flights@, self.free@, self.lent);
            if lane is Some {
                assert(after =~= before);
            } else {
                assert(after =~= before);
            }
        }
        lane
    }

    /// Gives the held lane back to the free lanes: the draw gave no address,
    /// or the tracer refused. A draw that gave no address leaves the pool
    /// drawn out.
    pub fn give_back(&mut self, drawn_out: bool)
        requires
            old(self).wf(),
            old(self).lent_view() is Some,
        ensures
            final(self).wf(),
            final(self).flights_view() == old(self).flights_view(),
            final(self).free_view() == old(self).free_view().push(old(self).lent_view().unwrap()),
            final(self).lent_view() is None,
            final(self).targets_view() == old(self).targets_view(),
            final(self).reached_view() == old(self).reached_view(),
            final(self).scores_view() == old(self).scores_view(),
            final(self).bounds_view() == old(self).bounds_view(),
            final(self).include_partial_view() == old(self).include_partial_view(),
            final(self).concurrency_view() == old(self).concurrency_view(),
            final(self).drawn_out_view() == (old(self).drawn_out_view() || drawn_out),
    {
        let ghost before = lanes_of(self.flights@, self.free@, self.lent);
        match self.lent.take() {
            Some(l) => self.free.push(l),
            None => {},
        }
        if drawn_out {
            self.drawn_out = true;
        }
        proof {
            assert(lanes_of(self.flights@, self.free@, self.lent) =~= before);
        }
    }

    /// Takes the next step of the fill of the pool: when the hunt has room,
    /// holds a free lane and draws the destination for it.
    ///
    /// The caller then starts the tracer of that destination in that lane, and
    /// hands the outcome to [`Pool::start`] or, when the tracer refuses, to
    /// [`Pool::give_back`]. A draw that gives no address gives the lane back
    /// and leaves the pool drawn out, so the hunt draws no further address.
    pub fn next_start(&mut self, draw: &mut Draw, stopped: bool) -> (r: Option<(usize, Pick)>)
        requires
            old(self).wf(),
            old(self).lent_view() is None,
            old(draw).wf(),
        ensures
            final(self).wf(),
            final(draw).wf(),
            final(self).flights_view() == old(self).flights_view(),
            final(self).targets_view() == old(self).targets_view(),
            final(self).reached_view() == old(self).reached_view(),
            final(self).scores_view() == old(self).scores_view(),
            final(self).bounds_view() == old(self).bounds_view(),
            final(self).include_partial_view() == old(self).include_partial_view(),
            final(self).concurrency_view() == old(self).concurrency_view(),
            !old(self).room_spec(stopped) ==> r is None && *final(self) == *old(self) && *final(draw)
                == *old(draw),
            match r {
                Some((lane, pick)) => {
                    &&& old(self).room_spec(stopped)
                    &&& old(self).free_view().len() > 0
                    &&& lane == old(self).free_view().last()
                    &&& final(self).free_view() == old(self).free_view().drop_last()
                    &&& final(self).lent_view() == Some(lane)
                    &&& final(self).drawn_out_view() == old(self).drawn_out_view()
                    &&& !old(draw).handed().contains(pick.addr)
                    &&& crate::blocks::reserved_block(pick.addr) is None
                    &&& final(draw).handed() == old(draw).handed().insert(pick.addr)
                },
                None => {
                    &&& final(self).free_view() == old(self).free_view()
                    &&& final(self).lent_view() is None
                    &&& final(draw).handed() == old(draw).handed()
                    &&& old(self).room_spec(stopped) && old(self).free_view().len() > 0
                        ==> final(self).drawn_out_view()
                },
            },
    {
        if !self.room(stopped) {
            return None;
        }
        let lane = match self.lend() {
            Some(l) => l,
            None => {
                return None;
            },
        };
        match draw.address() {
            Some(pick) => Some((lane, pick)),
            None => {
                self.give_back(true);
                None
            },
        }
    }

    /// Starts the destination that the held lane is for: the destination
    /// counts against the cap the moment its tracer starts.
    pub fn start(&mut self, target: u32)
        requires
            old(self).wf(),
            old(self).lent_view() is Some,
            old(self).targets_view() < u64::MAX,
        ensures
            final(self).wf(),
            final(self).flights_view() == old(self).flights_view().push(
                Flight { target, lane: old(self).lent_view().unwrap() },
            ),
            final(self).free_view() == old(self).free_view(),
            final(self).lent_view() is None,
            final(self).targets_view() == old(self).targets_view() + 1,
            final(self).reached_view() == old(self).reached_view(),
            final(self).scores_view() == old(self).scores_view(),
            final(self).bounds_view() == old(self).bounds_view(),
            final(self).include_partial_view() == old(self).include_partial_view(),
            final(self).concurrency_view() == old(self).concurrency_view(),
            final(self).drawn_out_view() == old(self).drawn_out_view(),
    {
        let ghost before = lanes_of(self.flights@, self.free@, self.lent);
        match self.lent.take() {
            Some(l) => {
                self.flights.push(Flight { target, lane: l });
            },
            None => {},
        }
        self.targets = self.targets + 1;
        proof {
            let after = lanes_of(self.flights@, self.free@, self.lent);
            assert(self.flights@.map_values(|f: Flight| f.lane) =~= old(self).flights@.map_values(
                |f: Flight| f.lane,
            ).push(old(self).lent.unwrap()));
            assert(after.to_multiset() =~= before.to_multiset()) by {
                vstd::seq_lib::lemma_multiset_commutative(
                    old(self).flights@.map_values(|f: Flight| f.lane),
                    self.free@,
                );
                assert(after =~= old(self).flights@.map_values(|f: Flight| f.lane).push(
                    old(self).lent.unwrap(),
                ) + self.free@);
                assert(before =~= old(self).flights@.map_values(|f: Flight| f.lane) + self.free@
                    + seq![old(self).lent.unwrap()]);
                vstd::seq_lib::lemma_multiset_commutative(
                    old(self).flights@.map_values(|f: Flight| f.lane) + self.free@,
                    seq![old(self).lent.unwrap()],
                );
                vstd::seq_lib::lemma_multiset_commutative(
                    old(self).flights@.map_values(|f: Flight| f.lane),
                    seq![old(self).lent.unwrap()],
                );
                vstd::seq_lib::lemma_multiset_commutative(
                    old(self).flights@.map_values(|f: Flight| f.lane).push(old(self).lent.unwrap()),
                    self.free@,
                );
                vstd::seq_lib::lemma_multiset_commutative(
                    seq![old(self).lent.unwrap()] + old(self).flights@.map_values(|f: Flight| f.lane),
                    self.free@,
                );
                assert(old(self).flights@.map_values(|f: Flight| f.lane).push(old(self).lent.unwrap())
                    =~= old(self).flights@.map_values(|f: Flight| f.lane) + seq![old(self).lent.unwrap()]);
            }
            lemma_same_lanes(before, after, self.concurrency);
        }
    }

    /// Takes the destination at this place out of the pool, and takes its
    /// score, when its run closed.
    ///
    /// The lane goes back to the pool either way. A destination that the
    /// user cut short takes no score and no round: a round that stopped in
    /// the middle measured a path that the tool never finished measuring.
    pub fn close(&mut self, place: usize, reason: EndReason, score: Score)
        requires
            old(self).wf(),
            place < old(self).flights_view().len(),
        ensures
            final(self).wf(),
            final(self).flights_view() == old(self).flights_view().remove(place as int),
            final(self).free_view() == old(self).free_view().push(old(self).flights_view()[place as int].lane),
            final(self).lent_view() == old(self).lent_view(),
            final(self).targets_view() == old(self).targets_view(),
            final(self).bounds_view() == old(self).bounds_view(),
            final(self).include_partial_view() == old(self).include_partial_view(),
            final(self).concurrency_view() == old(self).concurrency_view(),
            final(self).drawn_out_view() == old(self).drawn_out_view(),
            reason == EndReason::Quit ==> final(self).scores_view() == old(self).scores_view()
                && final(self).reached_view() == old(self).reached_view(),
            reason != EndReason::Quit ==> final(self).scores_view() == old(self).scores_view().push(score)
                && final(self).reached_view() == old(self).reached_view() + if score.kind
                == PathKind::Reached {
                1int
            } else {
                0int
            },
    {
        let ghost before = lanes_of(self.flights@, self.free@, self.lent);
        let ghost fl = self.flights@.map_values(|f: Flight| f.lane);
        let flight = self.flights.remove(place);
        self.free.push(flight.lane);
        proof {
            let after = lanes_of(self.flights@, self.free@, self.lent);
            let rest = self.flights@.map_values(|f: Flight| f.lane);
            assert(rest =~= fl.remove(place as int));
            let tail = match self.lent {
                Some(l) => seq![l],
                None => Seq::<usize>::empty(),
            };
            assert(before =~= fl + old(self).free@ + tail);
            assert(after =~= rest + old(self).free@.push(flight.lane) + tail);
            vstd::seq_lib::to_multiset_remove(fl, place as int);
            assert(fl[place as int] == flight.lane);
            vstd::seq_lib::lemma_multiset_commutative(fl, old(self).free@);
            vstd::seq_lib::lemma_multiset_commutative(fl + old(self).free@, tail);
            vstd::seq_lib::lemma_multiset_commutative(rest, old(self).free@.push(flight.lane));
            vstd::seq_lib::lemma_multiset_commutative(rest + old(self).free@.push(flight.lane), tail);
            vstd::seq_lib::to_multiset_build(old(self).free@, flight.lane);
            broadcast use vstd::multiset::group_multiset_axioms;
            broadcast use vstd::seq_lib::group_to_multiset_ensures;
            assert(fl.to_multiset().count(flight.lane) > 0);
            assert(fl.to_multiset() =~= rest.to_multiset().insert(flight.lane));
            assert(after.to_multiset() =~= before.to_multiset());
            lemma_same_lanes(before, after, self.concurrency);
        }
        if reason == EndReason::Quit {
            return;
        }
        if score.kind == PathKind::Reached {
            self.reached = self.reached + 1;
        }
        self.scores.push(score);
    }

    /// Takes every destination out of the pool when a fault stopped the hunt.
    ///
    /// An abandoned destination takes no score and no round: it stood in the
    /// air and it did not finish. It still counts among the destinations the
    /// hunt started, because its tracer started.
    pub fn abandon(&mut self) -> (gone: Vec<Flight>)
        requires
            old(self).wf(),
        ensures
            gone@ == old(self).flights_view(),
            final(self).flights_view().len() == 0,
            final(self).scores_view() == old(self).scores_view(),
            final(self).targets_view() == old(self).targets_view(),
            final(self).reached_view() == old(self).reached_view(),
            final(self).bounds_view() == old(self).bounds_view(),
            final(self).include_partial_view() == old(self).include_partial_view(),
    {
        let mut gone: Vec<Flight> = Vec::new();
        std::mem::swap(&mut gone, &mut self.flights);
        gone
    }

    /// The summary of the destinations that finished.
    pub fn finish(self, elapsed: Period) -> (s: Summary)
        ensures
            s.scores_view() == self.scores_view(),
            s.elapsed_view() == elapsed,
            s.targets_view() == self.targets_view(),
            s.bounds_view() == self.bounds_view(),
            s.include_partial_view() == self.include_partial_view(),
    {
        Summary::new(self.scores, elapsed, self.targets, self.bounds, self.include_partial)
    }
}

/// No two destinations of one moment hold one lane, every lane of a flight is
/// a lane of the pool, and a pool holds no more destinations at once than its
/// lanes.
pub proof fn lemma_flights_hold_their_own_lanes(pool: &Pool)
    requires
        pool.wf(),
    ensures
        pool.flights_view().len() <= pool.concurrency_view(),
        forall|i: int| 0 <= i < pool.flights_view().len() ==> (#[trigger] pool.flights_view()[i]).lane
            < pool.concurrency_view(),
        forall|i: int, j: int|
            0 <= i < pool.flights_view().len() && 0 <= j < pool.flights_view().len() && i != j
                ==> (#[trigger] pool.flights_view()[i]).lane != (#[trigger] pool.flights_view()[j]).lane,
        forall|i: int, j: int|
            0 <= i < pool.flights_view().len() && 0 <= j < pool.free_view().len()
                ==> (#[trigger] pool.flights_view()[i]).lane != #[trigger] pool.free_view()[j],
{
    let lanes = lanes_of(pool.flights@, pool.free@, pool.lent);
    let fl = pool.flights@.map_values(|f: Flight| f.lane);
    assert forall|i: int| 0 <= i < pool.flights@.len() implies (#[trigger] pool.flights@[i]).lane
        < pool.concurrency by {
        assert(lanes[i] == pool.flights@[i].lane);
    }
    assert forall|i: int, j: int|
        0 <= i < pool.flights@.len() && 0 <= j < pool.flights@.len() && i != j implies (
        #[trigger] pool.flights@[i]).lane != (#[trigger] pool.flights@[j]).lane by {
        assert(lanes[i] == pool.flights@[i].lane);
        assert(lanes[j] == pool.flights@[j].lane);
    }
    assert forall|i: int, j: int|
        0 <= i < pool.flights@.len() && 0 <= j < pool.free@.len() implies (
        #[trigger] pool.flights@[i]).lane != #[trigger] pool.free@[j] by {
        assert(lanes[i] == pool.flights@[i].lane);
        assert(lanes[fl.len() + j] == pool.free@[j]);
    }
}

/// Two lists of lanes that hold the same lanes the same number of times keep
/// the bounds of a pool.
proof fn lemma_same_lanes(before: Seq<usize>, after: Seq<usize>, n: usize)
    requires
        before.to_multiset() == after.to_multiset(),
        before.no_duplicates(),
        forall|i: int| 0 <= i < before.len() ==> #[trigger] before[i] < n,
    ensures
        after.len() == before.len(),
        after.no_duplicates(),
        forall|i: int| 0 <= i < after.len() ==> #[trigger] after[i] < n,
{
    broadcast use vstd::seq_lib::group_to_multiset_ensures;

    before.lemma_multiset_has_no_duplicates();
    assert(after.len() == after.to_multiset().len());
    assert(before.len() == before.to_multiset().len());
    after.lemma_multiset_has_no_duplicates_conv();
    assert forall|i: int| 0 <= i < after.len() implies #[trigger] after[i] < n by {
        assert(after.to_multiset().count(after[i]) > 0);
        assert(before.to_multiset().count(after[i]) > 0);
        assert(before.contains(after[i]));
    }
}

/// The fault that stopped a hunt, and what the hunt found before it.
///
/// A fault in front of the loop of the hunt carries no summary, because no
/// round ran.
pub struct HuntFailure {
    /// The summary of the rounds that finished, when the hunt reached the
    /// loop.
    pub summary: Option<Box<Summary>>,
    /// The fault, as the user reads it, and the code of its kind.
    pub failure: TraceFailure,
}

impl HuntFailure {
    /// A fault in front of the loop of the hunt, which found nothing to
    /// print.
    pub fn from(failure: TraceFailure) -> (h: HuntFailure)
        ensures
            h.summary is None,
            h.failure == failure,
    {
        HuntFailure { summary: None, failure }
    }
}

} // verus!

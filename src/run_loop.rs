use vstd::prelude::*;
use crate::tick::{Tick, TICKS_PER_MINUTE};

verus! {

/// Something the simulation reports having happened during a step.
#[derive(Clone, Copy, Debug, PartialEq, Eq, Structural)]
pub enum Event {
    CarReachedParkingSpot(usize, usize),
    PedReachedParkingSpot(usize, usize),
    PedReachedBuilding(usize, usize),
    PedReachedBorder(usize, usize),
    CarReachedBorder(usize, usize),
    BusArrivedAtStop(usize, usize),
    BusDepartedFromStop(usize, usize),
    PedEntersBus(usize, usize),
    PedLeavesBus(usize, usize),
}

/// What is left of the expectations `exps` after the events `evs`, matched in
/// order: each event that equals the first expectation left consumes it.
pub open spec fn match_events(exps: Seq<Event>, evs: Seq<Event>) -> Seq<Event>
    decreases evs.len(),
{
    if exps.len() == 0 || evs.len() == 0 {
        exps
    } else if evs[0] == exps[0] {
        match_events(exps.drop_first(), evs.drop_first())
    } else {
        match_events(exps, evs.drop_first())
    }
}

/// `f` places each expectation at a position of `evs` holding that event, in
/// strictly increasing order.
pub open spec fn embeds(f: Seq<int>, exps: Seq<Event>, evs: Seq<Event>) -> bool {
    &&& f.len() == exps.len()
    &&& forall|i: int| 0 <= i < f.len() ==> 0 <= #[trigger] f[i] < evs.len() && evs[f[i]] == exps[i]
    &&& forall|i: int, j: int| 0 <= i < j < f.len() ==> #[trigger] f[i] < #[trigger] f[j]
}

/// `exps` occurs in `evs` in order, not necessarily contiguously.
pub open spec fn is_subsequence(exps: Seq<Event>, evs: Seq<Event>) -> bool {
    exists|f: Seq<int>| embeds(f, exps, evs)
}

/// Matching expectations against two batches of events in turn is matching
/// them against the batches joined.
pub proof fn lemma_match_concat(exps: Seq<Event>, a: Seq<Event>, b: Seq<Event>)
    ensures
        match_events(match_events(exps, a), b) == match_events(exps, a + b),
    decreases a.len(),
{
    if a.len() == 0 {
        assert(a + b =~= b);
    } else if exps.len() == 0 {
        lemma_match_empty(a + b);
        lemma_match_empty(b);
        lemma_match_empty(a);
    } else {
        assert((a + b).drop_first() =~= a.drop_first() + b);
        assert((a + b)[0] == a[0]);
        if a[0] == exps[0] {
            lemma_match_concat(exps.drop_first(), a.drop_first(), b);
        } else {
            lemma_match_concat(exps, a.drop_first(), b);
        }
    }
}

proof fn lemma_match_empty(evs: Seq<Event>)
    ensures
        match_events(seq![], evs) == Seq::<Event>::empty(),
{
}

/// Matching in order consumes every expectation exactly when the expectations
/// are a subsequence of the events.
pub proof fn lemma_all_met_iff_subsequence(exps: Seq<Event>, evs: Seq<Event>)
    ensures
        match_events(exps, evs).len() == 0 <==> is_subsequence(exps, evs),
{
    if match_events(exps, evs).len() == 0 {
        let f = lemma_met_gives_embedding(exps, evs);
        assert(embeds(f, exps, evs));
    }
    if is_subsequence(exps, evs) {
        let f = choose|f: Seq<int>| embeds(f, exps, evs);
        lemma_embedding_gives_met(f, exps, evs);
    }
}

proof fn lemma_met_gives_embedding(exps: Seq<Event>, evs: Seq<Event>) -> (f: Seq<int>)
    requires
        match_events(exps, evs).len() == 0,
    ensures
        embeds(f, exps, evs),
    decreases evs.len(),
{
    if exps.len() == 0 {
        seq![]
    } else {
        if evs[0] == exps[0] {
            let g = lemma_met_gives_embedding(exps.drop_first(), evs.drop_first());
            let f = seq![0int] + g.map_values(|x: int| x + 1);
            assert forall|i: int| 0 <= i < f.len() implies 0 <= #[trigger] f[i] < evs.len()
                && evs[f[i]] == exps[i] by {
                if i > 0 {
                    assert(f[i] == g[i - 1] + 1);
                    assert(evs.drop_first()[g[i - 1]] == exps.drop_first()[i - 1]);
                }
            }
            assert forall|i: int, j: int| 0 <= i < j < f.len() implies #[trigger] f[i] < #[trigger] f[j] by {
                if i > 0 {
                    assert(g[i - 1] < g[j - 1]);
                } else {
                    assert(0 <= g[j - 1]);
                }
            }
            f
        } else {
            let g = lemma_met_gives_embedding(exps, evs.drop_first());
            let f = g.map_values(|x: int| x + 1);
            assert forall|i: int| 0 <= i < f.len() implies 0 <= #[trigger] f[i] < evs.len()
                && evs[f[i]] == exps[i] by {
                assert(evs.drop_first()[g[i]] == exps[i]);
            }
            assert forall|i: int, j: int| 0 <= i < j < f.len() implies #[trigger] f[i] < #[trigger] f[j] by {
                assert(g[i] < g[j]);
            }
            f
        }
    }
}

proof fn lemma_embedding_gives_met(f: Seq<int>, exps: Seq<Event>, evs: Seq<Event>)
    requires
        embeds(f, exps, evs),
    ensures
        match_events(exps, evs).len() == 0,
    decreases evs.len(),
{
    if exps.len() == 0 {
    } else {
        assert(0 <= f[0] < evs.len());
        if evs[0] == exps[0] {
            let g = f.drop_first().map_values(|x: int| x - 1);
            assert forall|i: int| 0 <= i < g.len() implies 0 <= #[trigger] g[i] < evs.drop_first().len()
                && evs.drop_first()[g[i]] == exps.drop_first()[i] by {
                assert(f[0] < f[i + 1]);
                assert(0 <= f[i + 1] < evs.len());
            }
            assert forall|i: int, j: int| 0 <= i < j < g.len() implies #[trigger] g[i] < #[trigger] g[j] by {
                assert(f[i + 1] < f[j + 1]);
            }
            lemma_embedding_gives_met(g, exps.drop_first(), evs.drop_first());
        } else {
            assert(f[0] != 0);
            let g = f.map_values(|x: int| x - 1);
            assert forall|i: int| 0 <= i < g.len() implies 0 <= #[trigger] g[i] < evs.drop_first().len()
                && evs.drop_first()[g[i]] == exps[i] by {
                if i > 0 {
                    assert(f[0] < f[i]);
                }
                assert(0 <= f[i] < evs.len());
            }
            assert forall|i: int, j: int| 0 <= i < j < g.len() implies #[trigger] g[i] < #[trigger] g[j] by {
                assert(f[i] < f[j]);
            }
            lemma_embedding_gives_met(g, exps, evs.drop_first());
        }
    }
}

/// The outcome of one step of a run against expectations.
#[derive(Clone, Copy, Debug, PartialEq, Eq, Structural)]
pub enum RunStatus {
    /// Every expectation has been met.
    AllMet,
    /// Some expectation is still unmet and time remains.
    KeepGoing,
    /// The time limit has been reached with expectations unmet.
    TimeLimitHit,
}

/// The ordered expectations of a run, and how many of them have been met.
#[derive(Clone, Debug)]
pub struct ExpectationTracker {
    pub expectations: Vec<Event>,
    pub matched: usize,
    pub time_limit: Tick,
}

impl ExpectationTracker {
    pub open spec fn wf(&self) -> bool {
        self.matched <= self.expectations@.len()
    }

    /// The expectations not yet met, in order.
    pub open spec fn remaining_spec(&self) -> Seq<Event> {
        self.expectations@.skip(self.matched as int)
    }

    pub fn new(expectations: Vec<Event>, time_limit: Tick) -> (r: ExpectationTracker)
        ensures
            r.wf(),
            r.remaining_spec() == expectations@,
            r.time_limit == time_limit,
    {
        let r = ExpectationTracker { expectations, matched: 0, time_limit };
        assert(r.remaining_spec() =~= r.expectations@);
        r
    }

    pub fn is_met(&self) -> (r: bool)
        requires
            self.wf(),
        ensures
            r == (self.remaining_spec().len() == 0),
    {
        self.matched == self.expectations.len()
    }

    /// The expectations not yet met, in order.
    pub fn remaining(&self) -> (r: Vec<Event>)
        requires
            self.wf(),
        ensures
            r@ == self.remaining_spec(),
    {
        let mut out: Vec<Event> = Vec::new();
        let mut i: usize = self.matched;
        while i < self.expectations.len()
            invariant
                self.matched <= i <= self.expectations@.len(),
                out@ == self.expectations@.subrange(self.matched as int, i as int),
            decreases self.expectations@.len() - i,
        {
            out.push(self.expectations[i]);
            i = i + 1;
            assert(out@ =~= self.expectations@.subrange(self.matched as int, i as int));
        }
        out
    }

    /// Takes the events of one step, in the order the step emitted them, at
    /// simulated time `now`. Stops matching once every expectation is met.
    pub fn observe(&mut self, events: &Vec<Event>, now: Tick) -> (r: RunStatus)
        requires
            old(self).wf(),
        ensures
            final(self).wf(),
            final(self).expectations == old(self).expectations,
            final(self).time_limit == old(self).time_limit,
            final(self).remaining_spec() == match_events(old(self).remaining_spec(), events@),
            (r == RunStatus::AllMet) == (final(self).remaining_spec().len() == 0),
            (r == RunStatus::TimeLimitHit) == (final(self).remaining_spec().len() > 0
                && now == old(self).time_limit),
    {
        let ghost start = old(self).remaining_spec();
        let mut i: usize = 0;
        assert(events@.skip(0) =~= events@);
        while i < events.len() && self.matched < self.expectations.len()
            invariant
                self.wf(),
                self.expectations == old(self).expectations,
                self.time_limit == old(self).time_limit,
                i <= events@.len(),
                match_events(self.remaining_spec(), events@.skip(i as int)) == match_events(start, events@),
            decreases events@.len() - i,
        {
            let ghost rem = self.remaining_spec();
            proof {
                assert(events@.skip(i as int).drop_first() =~= events@.skip(i + 1));
                assert(events@.skip(i as int)[0] == events@[i as int]);
                assert(rem[0] == self.expectations@[self.matched as int]);
                assert(rem.drop_first() =~= self.expectations@.skip(self.matched + 1));
            }
            if events[i] == self.expectations[self.matched] {
                self.matched = self.matched + 1;
            }
            i = i + 1;
        }
        proof {
            if i == events@.len() {
                assert(events@.skip(i as int) =~= seq![]);
            } else {
                assert(self.remaining_spec() =~= seq![]);
                lemma_match_empty(events@.skip(i as int));
            }
        }
        if self.matched == self.expectations.len() {
            RunStatus::AllMet
        } else if now == self.time_limit {
            RunStatus::TimeLimitHit
        } else {
            RunStatus::KeepGoing
        }
    }
}

/// Whether the run loop reports its speed after the step that reached `time`:
/// once per simulated minute.
pub fn speed_report_due(time: Tick) -> (r: bool)
    ensures
        r == (time.0 % TICKS_PER_MINUTE == 0),
{
    time.is_multiple_of(Tick(TICKS_PER_MINUTE))
}

} // verus!

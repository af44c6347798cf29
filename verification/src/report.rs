//! The scoring aggregator: consumes one outcome per record, in order, and
//! maintains the pass count, the total count, and the failing outcomes in
//! the order they occurred.

use vstd::prelude::*;

verus! {

/// The result of one record's exchange with the engine.
#[derive(Debug)]
pub struct Outcome {
    /// The record's display id.
    pub record_id: String,
    /// The move the driver chose, in wire notation.
    pub chosen_move: String,
    /// Wall-clock think time for the record, in milliseconds.
    pub think_millis: u64,
    /// Whether the chosen move is among the record's accepted moves.
    pub passed: bool,
}

/// Holds of the outcomes that passed.
pub open spec fn is_pass(o: Outcome) -> bool {
    o.passed
}

/// Holds of the outcomes that failed.
pub open spec fn is_fail(o: Outcome) -> bool {
    !o.passed
}

/// The running tally of a suite: every outcome recorded so far, never
/// revisited or re-scored.
pub struct Report {
    total: usize,
    passes: usize,
    failures: Vec<Outcome>,
    history: Ghost<Seq<Outcome>>,
}

impl Report {
    /// Every outcome recorded so far, in order.
    pub closed spec fn outcomes(&self) -> Seq<Outcome> {
        self.history@
    }

    /// The counts and the failure list agree with the recorded outcomes:
    /// the pass count is the number of outcomes that passed, the total is
    /// the number recorded, and the failures are exactly the outcomes
    /// that failed, in order.
    pub closed spec fn wf(&self) -> bool {
        &&& self.total as nat == self.history@.len()
        &&& self.passes as nat == self.history@.filter(|o: Outcome| is_pass(o)).len()
        &&& self.failures@ == self.history@.filter(|o: Outcome| is_fail(o))
    }

    /// An empty tally.
    pub fn new() -> (r: Report)
        ensures
            r.wf(),
            r.outcomes() == Seq::<Outcome>::empty(),
    {
        let r = Report { total: 0, passes: 0, failures: Vec::new(), history: Ghost(Seq::empty()) };
        proof {
            assert(Seq::<Outcome>::empty().filter(|o: Outcome| is_pass(o)) =~= Seq::<
                Outcome,
            >::empty()) by {
                reveal(Seq::filter);
            }
            assert(Seq::<Outcome>::empty().filter(|o: Outcome| is_fail(o)) =~= Seq::<
                Outcome,
            >::empty()) by {
                reveal(Seq::filter);
            }
        }
        r
    }

    /// Records one outcome.
    pub fn record(&mut self, o: Outcome)
        requires
            old(self).wf(),
            old(self).outcomes().len() < usize::MAX,
        ensures
            final(self).wf(),
            final(self).outcomes() == old(self).outcomes().push(o),
    {
        proof {
            let h = self.history@;
            broadcast use vstd::seq_lib::group_filter_ensures;

            assert(h.push(o) =~= h + seq![o]);
            assert(seq![o].filter(|x: Outcome| is_pass(x)) =~= (if o.passed {
                seq![o]
            } else {
                Seq::<Outcome>::empty()
            })) by {
                reveal_with_fuel(Seq::filter, 2);
                assert(seq![o].drop_last() =~= Seq::<Outcome>::empty());
                assert(seq![o].last() == o);
            }
            assert(seq![o].filter(|x: Outcome| is_fail(x)) =~= (if o.passed {
                Seq::<Outcome>::empty()
            } else {
                seq![o]
            })) by {
                reveal_with_fuel(Seq::filter, 2);
                assert(seq![o].drop_last() =~= Seq::<Outcome>::empty());
                assert(seq![o].last() == o);
            }
            assert((h + seq![o]).filter(|x: Outcome| is_pass(x)) == h.filter(
                |x: Outcome| is_pass(x),
            ) + seq![o].filter(|x: Outcome| is_pass(x)));
            assert((h + seq![o]).filter(|x: Outcome| is_fail(x)) == h.filter(
                |x: Outcome| is_fail(x),
            ) + seq![o].filter(|x: Outcome| is_fail(x)));
            assert(h.filter(|x: Outcome| is_pass(x)).len() <= h.len());
        }
        let ghost h = self.history@;
        let ghost oo = o;
        self.total = self.total + 1;
        if o.passed {
            self.passes = self.passes + 1;
            proof {
                assert(h.filter(|x: Outcome| is_pass(x)) + seq![oo] =~= h.push(oo).filter(
                    |x: Outcome| is_pass(x),
                ));
                assert(h.filter(|x: Outcome| is_fail(x)) + Seq::<Outcome>::empty() =~= h.push(
                    oo,
                ).filter(|x: Outcome| is_fail(x)));
            }
        } else {
            self.failures.push(o);
            proof {
                assert(h.filter(|x: Outcome| is_fail(x)).push(oo) =~= h.filter(
                    |x: Outcome| is_fail(x),
                ) + seq![oo]);
                assert(h.filter(|x: Outcome| is_fail(x)) + seq![oo] =~= h.push(oo).filter(
                    |x: Outcome| is_fail(x),
                ));
                assert(h.filter(|x: Outcome| is_pass(x)) + Seq::<Outcome>::empty() =~= h.push(
                    oo,
                ).filter(|x: Outcome| is_pass(x)));
            }
        }
        self.history = Ghost(h.push(oo));
    }

    /// How many outcomes have been recorded.
    pub fn total(&self) -> (r: usize)
        requires
            self.wf(),
        ensures
            r == self.outcomes().len(),
    {
        self.total
    }

    /// How many recorded outcomes passed: always the count of outcomes
    /// with `passed` set.
    pub fn passes(&self) -> (r: usize)
        requires
            self.wf(),
        ensures
            r == self.outcomes().filter(|o: Outcome| is_pass(o)).len(),
    {
        self.passes
    }

    /// The failing outcomes, in the order they occurred.
    pub fn failures(&self) -> (r: &Vec<Outcome>)
        requires
            self.wf(),
        ensures
            r@ == self.outcomes().filter(|o: Outcome| is_fail(o)),
    {
        &self.failures
    }
}

} // verus!

use vstd::prelude::*;
use crate::sign_matrix::row_views;
use crate::ternary::Ternary;

verus! {

/// The items of a run that remain after its first `washout` steps are dropped.
pub open spec fn after_washout<T>(history: Seq<T>, washout: nat) -> Seq<T> {
    if washout <= history.len() {
        history.skip(washout as int)
    } else {
        Seq::empty()
    }
}

/// Collects the reservoir states of a run, one per step, dropping the states
/// of the first `washout` steps so that transient dynamics can settle.
pub struct StateCollector {
    washout: usize,
    seen: usize,
    states: Vec<Vec<Ternary>>,
    history: Ghost<Seq<Seq<Ternary>>>,
}

impl StateCollector {
    /// The number of leading steps whose states are dropped.
    pub closed spec fn washout_spec(&self) -> nat {
        self.washout as nat
    }

    /// Every state observed so far, in order.
    pub closed spec fn history(&self) -> Seq<Seq<Ternary>> {
        self.history@
    }

    /// The states kept so far.
    pub closed spec fn kept(&self) -> Seq<Seq<Ternary>> {
        row_views(self.states@)
    }

    /// The collector's internal consistency: it has kept exactly the observed
    /// states after the washout.
    pub closed spec fn well_formed(&self) -> bool {
        &&& self.seen == self.history@.len()
        &&& self.kept() == after_washout(self.history@, self.washout as nat)
    }

    /// A collector that has observed nothing yet.
    pub fn new(washout: usize) -> (c: StateCollector)
        ensures
            c.well_formed(),
            c.washout_spec() == washout,
            c.history() == Seq::<Seq<Ternary>>::empty(),
    {
        let c = StateCollector {
            washout,
            seen: 0,
            states: Vec::new(),
            history: Ghost(Seq::empty()),
        };
        assert(c.kept() =~= Seq::<Seq<Ternary>>::empty());
        assert(after_washout(Seq::<Seq<Ternary>>::empty(), washout as nat) =~= Seq::<
            Seq<Ternary>,
        >::empty());
        c
    }

    /// Records the state after one more step; it is kept iff at least
    /// `washout` steps came before it.
    pub fn observe(&mut self, state: &Vec<Ternary>)
        requires
            old(self).well_formed(),
            old(self).history().len() < usize::MAX,
        ensures
            final(self).well_formed(),
            final(self).washout_spec() == old(self).washout_spec(),
            final(self).history() == old(self).history().push(state@),
    {
        let ghost h0 = self.history@;
        let ghost kept0 = row_views(self.states@);
        if self.seen >= self.washout {
            let mut copy: Vec<Ternary> = Vec::new();
            let mut i: usize = 0;
            while i < state.len()
                invariant
                    i <= state@.len(),
                    copy@ == state@.take(i as int),
                decreases state@.len() - i,
            {
                copy.push(state[i]);
                i = i + 1;
                assert(copy@ =~= state@.take(i as int));
            }
            assert(copy@ =~= state@);
            self.states.push(copy);
            assert(row_views(self.states@) =~= kept0.push(state@));
        }
        self.seen = self.seen + 1;
        self.history = Ghost(h0.push(state@));
        assert(self.kept() =~= after_washout(self.history@, self.washout as nat));
    }

    /// The states kept: those observed after the first `washout` steps, in order.
    pub fn into_states(self) -> (states: Vec<Vec<Ternary>>)
        requires
            self.well_formed(),
        ensures
            row_views(states@) == after_washout(self.history(), self.washout_spec()),
    {
        self.states
    }
}

/// Drops the first `washout` items, such as the targets of the steps whose
/// states were dropped, and keeps the rest in order; none remain when there
/// are no more than `washout` items.
pub fn skip_washout<T>(items: Vec<T>, washout: usize) -> (rest: Vec<T>)
    ensures
        rest@ == after_washout(items@, washout as nat),
{
    let mut items = items;
    if washout <= items.len() {
        items.split_off(washout)
    } else {
        Vec::new()
    }
}

/// A run collected with washout `w` keeps `max(0, n - w)` of its `n` states:
/// the last ones, in the order they were observed.
pub proof fn law_washout_keeps_tail(history: Seq<Seq<Ternary>>, washout: nat)
    ensures
        after_washout(history, washout).len() == if washout <= history.len() {
            (history.len() - washout) as nat
        } else {
            0
        },
        forall|i: int|
            0 <= i < after_washout(history, washout).len() ==> #[trigger] after_washout(history, washout)[i]
                == history[i + washout],
{
}

/// With no washout every observed state is kept.
pub proof fn law_no_washout_keeps_all(history: Seq<Seq<Ternary>>)
    ensures
        after_washout(history, 0) == history,
{
    assert(history.skip(0) =~= history);
}

} // verus!

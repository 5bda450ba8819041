//! The outcome of one dispatch.
use vstd::prelude::*;
use crate::error::ListenerError;

verus! {

/// What one listener reported for one event.
pub type Outcome = Result<(), ListenerError>;

/// The mathematical content of a [`DispatchResult`].
pub struct DispatchView {
    /// One outcome per invoked listener, in invocation order.
    pub outcomes: Seq<Outcome>,
    /// Whether middleware vetoed the event.
    pub blocked: bool,
}

/// The number of successful outcomes in `outcomes`.
pub open spec fn successes(outcomes: Seq<Outcome>) -> nat {
    outcomes.filter(|o: Outcome| o is Ok).len()
}

/// The number of failed outcomes in `outcomes`.
pub open spec fn failures(outcomes: Seq<Outcome>) -> nat {
    outcomes.filter(|o: Outcome| o is Err).len()
}

/// The error of an outcome, if it has one.
pub open spec fn error_of(o: Outcome) -> Option<ListenerError> {
    match o {
        Ok(_) => None,
        Err(e) => Some(e),
    }
}

/// The errors among `outcomes`, in the order of the outcomes.
pub open spec fn errors_of(outcomes: Seq<Outcome>) -> Seq<ListenerError> {
    outcomes.filter_map(|o: Outcome| error_of(o))
}

/// Every outcome is either a success or a failure, and never both.
pub proof fn lemma_outcomes_partition(outcomes: Seq<Outcome>)
    ensures
        successes(outcomes) + failures(outcomes) == outcomes.len(),
    decreases outcomes.len(),
{
    reveal(Seq::filter);
    if outcomes.len() > 0 {
        lemma_outcomes_partition(outcomes.drop_last());
    }
}

/// There are as many errors as failed outcomes.
pub proof fn lemma_errors_len(outcomes: Seq<Outcome>)
    ensures
        errors_of(outcomes).len() == failures(outcomes),
    decreases outcomes.len(),
{
    reveal(Seq::filter);
    if outcomes.len() > 0 {
        lemma_errors_len(outcomes.drop_last());
    }
}

/// No outcome failed exactly when every outcome is a success.
pub proof fn lemma_no_failures(outcomes: Seq<Outcome>)
    ensures
        failures(outcomes) == 0 <==> (forall|i: int| 0 <= i < outcomes.len() ==> outcomes[i] is Ok),
    decreases outcomes.len(),
{
    reveal(Seq::filter);
    if outcomes.len() > 0 {
        let rest = outcomes.drop_last();
        lemma_no_failures(rest);
        if failures(outcomes) == 0 {
            assert forall|i: int| 0 <= i < outcomes.len() implies outcomes[i] is Ok by {
                if i < rest.len() {
                    assert(rest[i] == outcomes[i]);
                }
            }
        } else if outcomes.last() is Ok {
            let i = choose|i: int| 0 <= i < rest.len() && !(rest[i] is Ok);
            assert(outcomes[i] == rest[i]);
        }
    }
}

/// The aggregate outcome of one dispatch: whether middleware blocked the event and, if
/// not, what each invoked listener reported, in invocation order.
#[derive(Debug)]
pub struct DispatchResult {
    results: Vec<Outcome>,
    blocked: bool,
    listener_count: usize,
}

impl View for DispatchResult {
    type V = DispatchView;

    closed spec fn view(&self) -> DispatchView {
        DispatchView { outcomes: self.results@, blocked: self.blocked }
    }
}

impl DispatchResult {
    /// A blocked result carries no outcomes.
    pub open spec fn wf(&self) -> bool {
        self@.blocked ==> self@.outcomes.len() == 0
    }

    #[verifier::type_invariant]
    spec fn inv(&self) -> bool {
        &&& self.wf()
        &&& self.listener_count == self.results.len()
    }

    /// The result of a dispatch that reached the listeners, with their outcomes in
    /// invocation order.
    pub fn new(results: Vec<Outcome>) -> (r: Self)
        ensures
            r.wf(),
            r@.outcomes == results@,
            !r@.blocked,
    {
        let listener_count = results.len();
        DispatchResult { results, blocked: false, listener_count }
    }

    /// The result of a dispatch that middleware vetoed: no listener was invoked.
    pub fn blocked() -> (r: Self)
        ensures
            r.wf(),
            r@.outcomes.len() == 0,
            r@.blocked,
    {
        DispatchResult { results: Vec::new(), blocked: true, listener_count: 0 }
    }

    /// Whether middleware vetoed the event.
    pub fn is_blocked(&self) -> (r: bool)
        ensures
            self.wf(),
            r == self@.blocked,
    {
        proof {
            use_type_invariant(self);
        }
        self.blocked
    }

    /// The number of listeners that were invoked; zero for a blocked event.
    pub fn listener_count(&self) -> (r: usize)
        ensures
            self.wf(),
            r == self@.outcomes.len(),
            self@.blocked ==> r == 0,
    {
        proof {
            use_type_invariant(self);
        }
        self.listener_count
    }

    /// The number of listeners that succeeded.
    pub fn success_count(&self) -> (r: usize)
        ensures
            self.wf(),
            r == successes(self@.outcomes),
            r + failures(self@.outcomes) == self@.outcomes.len(),
    {
        proof {
            use_type_invariant(self);
            lemma_outcomes_partition(self.results@);
        }
        let mut count: usize = 0;
        let mut i: usize = 0;
        while i < self.results.len()
            invariant
                i <= self.results.len(),
                count <= i,
                count == successes(self.results@.take(i as int)),
            decreases self.results.len() - i,
        {
            proof {
                let seen = self.results@.take(i as int);
                assert(self.results@.take(i + 1) =~= seen.push(self.results@[i as int]));
                seen.lemma_filter_len_push(|o: Outcome| o is Ok, self.results@[i as int]);
            }
            if self.results[i].is_ok() {
                count += 1;
            }
            i += 1;
        }
        assert(self.results@.take(i as int) =~= self.results@);
        count
    }

    /// The number of listeners that failed.
    pub fn error_count(&self) -> (r: usize)
        ensures
            self.wf(),
            r == failures(self@.outcomes),
            successes(self@.outcomes) + r == self@.outcomes.len(),
    {
        proof {
            use_type_invariant(self);
            lemma_outcomes_partition(self.results@);
        }
        let mut count: usize = 0;
        let mut i: usize = 0;
        while i < self.results.len()
            invariant
                i <= self.results.len(),
                count <= i,
                count == failures(self.results@.take(i as int)),
            decreases self.results.len() - i,
        {
            proof {
                let seen = self.results@.take(i as int);
                assert(self.results@.take(i + 1) =~= seen.push(self.results@[i as int]));
                seen.lemma_filter_len_push(|o: Outcome| o is Err, self.results@[i as int]);
            }
            if self.results[i].is_err() {
                count += 1;
            }
            i += 1;
        }
        assert(self.results@.take(i as int) =~= self.results@);
        count
    }

    /// The errors that listeners reported, in invocation order.
    pub fn errors(&self) -> (r: Vec<&ListenerError>)
        ensures
            self.wf(),
            r@.map_values(|e: &ListenerError| *e) == errors_of(self@.outcomes),
    {
        proof {
            use_type_invariant(self);
        }
        let mut found: Vec<&ListenerError> = Vec::new();
        let mut i: usize = 0;
        while i < self.results.len()
            invariant
                i <= self.results.len(),
                found@.map_values(|e: &ListenerError| *e) == errors_of(self.results@.take(i as int)),
            decreases self.results.len() - i,
        {
            proof {
                self.results@.lemma_filter_map_take_succ(|o: Outcome| error_of(o), i as int);
            }
            let ghost before = found@;
            match &self.results[i] {
                Ok(_) => {},
                Err(e) => {
                    found.push(e);
                    assert(found@.map_values(|e: &ListenerError| *e) =~= before.map_values(
                        |e: &ListenerError| *e,
                    ) + seq![*e]);
                },
            }
            i += 1;
        }
        assert(self.results@.take(i as int) =~= self.results@);
        found
    }

    /// Whether the event reached the listeners and all of them succeeded.
    pub fn all_succeeded(&self) -> (r: bool)
        ensures
            self.wf(),
            r == (!self@.blocked && forall|i: int|
                0 <= i < self@.outcomes.len() ==> self@.outcomes[i] is Ok),
            r == (!self@.blocked && failures(self@.outcomes) == 0),
    {
        proof {
            use_type_invariant(self);
            lemma_no_failures(self.results@);
        }
        if self.blocked {
            return false;
        }
        let mut i: usize = 0;
        while i < self.results.len()
            invariant
                i <= self.results.len(),
                forall|j: int| 0 <= j < i ==> self.results@[j] is Ok,
            decreases self.results.len() - i,
        {
            if self.results[i].is_err() {
                proof {
                    use_type_invariant(self);
                    lemma_no_failures(self.results@);
                }
                return false;
            }
            i += 1;
        }
        true
    }

    /// Whether any listener failed.
    pub fn has_errors(&self) -> (r: bool)
        ensures
            self.wf(),
            r == (exists|i: int| 0 <= i < self@.outcomes.len() && self@.outcomes[i] is Err),
            r == (failures(self@.outcomes) > 0),
    {
        proof {
            use_type_invariant(self);
            lemma_no_failures(self.results@);
        }
        let mut i: usize = 0;
        while i < self.results.len()
            invariant
                i <= self.results.len(),
                forall|j: int| 0 <= j < i ==> self.results@[j] is Ok,
            decreases self.results.len() - i,
        {
            if self.results[i].is_err() {
                proof {
                    use_type_invariant(self);
                    lemma_no_failures(self.results@);
                }
                return true;
            }
            i += 1;
        }
        false
    }

    /// While an event is not blocked, every invoked listener is counted exactly once, as
    /// a success or as a failure.
    pub proof fn law_counts_add_up(self)
        requires
            self.wf(),
            !self@.blocked,
        ensures
            successes(self@.outcomes) + failures(self@.outcomes) == self@.outcomes.len(),
    {
        lemma_outcomes_partition(self@.outcomes);
    }

    /// A blocked event invoked no listener: all three counts are zero.
    pub proof fn law_blocked_counts_nothing(self)
        requires
            self.wf(),
            self@.blocked,
        ensures
            self@.outcomes.len() == 0,
            successes(self@.outcomes) == 0,
            failures(self@.outcomes) == 0,
    {
        lemma_outcomes_partition(self@.outcomes);
    }
}

} // verus!

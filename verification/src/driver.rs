use vstd::prelude::*;

verus! {

/// Convergence is examined on every iteration whose number is a multiple of
/// this interval, and on no other.
pub const CHECK_INTERVAL: usize = 10;

/// Where a run stands.
#[derive(Clone, Copy, Debug, PartialEq, Eq, Structural)]
pub enum Phase {
    /// More iterations are to come.
    Running,
    /// A convergence check found every window within tolerance.
    Converged,
    /// The iteration budget is used up and no check has succeeded.
    MaxIterationsReached,
    /// An iteration left the estimates unusable.
    NumericalFailure,
}

/// What the caller observed after it carried out one iteration.
#[derive(Clone, Copy, Debug, PartialEq, Eq, Structural)]
pub struct StepReport {
    /// The estimates are still finite.
    pub finite: bool,
    /// No window's free energy moved by more than the tolerance. Only read
    /// for an iteration on which a convergence check is due.
    pub within_tolerance: bool,
}

/// How a run ended.
#[derive(Clone, Copy, Debug, PartialEq, Eq, Structural)]
pub enum Outcome {
    /// Converged after this many iterations.
    Converged { iterations: usize },
    /// Stopped without convergence after this many iterations, the whole
    /// budget. The latest estimate is still the best one available.
    MaxIterationsReached { iterations: usize },
    /// Iteration number `iteration` produced values that are not finite.
    NumericalFailure { iteration: usize },
}

impl Outcome {
    /// The run left an estimate that is to be written out: it converged, or
    /// it used up its budget and the latest estimate is the best available.
    /// Only a numerical failure leaves nothing to write.
    pub fn emits_estimate(&self) -> (r: bool)
        ensures
            r == !(self is NumericalFailure),
    {
        match self {
            Outcome::NumericalFailure { .. } => false,
            _ => true,
        }
    }

    /// The estimate is to be written out with a warning: the run ended
    /// without convergence, which is no error.
    pub fn warns(&self) -> (r: bool)
        ensures
            r == (self is MaxIterationsReached),
    {
        match self {
            Outcome::MaxIterationsReached { .. } => true,
            _ => false,
        }
    }
}

/// What the caller has to do next.
#[derive(Clone, Copy, Debug, PartialEq, Eq, Structural)]
pub enum Action {
    /// Carry out iteration number `iteration` (counted from 1), examine
    /// convergence afterwards if `check_convergence` is set, and report back.
    Iterate { iteration: usize, check_convergence: bool },
    /// Stop iterating: the run is over.
    Finish { outcome: Outcome },
}

/// The state of a run: the iterations done, the budget, and the phase.
pub struct State {
    pub iteration: int,
    pub budget: int,
    pub phase: Phase,
}

/// A convergence check is due after iteration number `n`.
pub open spec fn check_due(n: int) -> bool {
    n % (CHECK_INTERVAL as int) == 0
}

/// The state before the first iteration. With an empty budget the run is over
/// before it starts.
pub open spec fn initial(budget: int) -> State {
    State {
        iteration: 0,
        budget,
        phase: if budget > 0 {
            Phase::Running
        } else {
            Phase::MaxIterationsReached
        },
    }
}

/// The phase after iteration number `n` of a run with the given budget, for
/// what the caller reported of it. A numerical failure outranks anything
/// else; a successful check outranks the end of the budget.
pub open spec fn verdict(n: int, budget: int, report: StepReport) -> Phase {
    if !report.finite {
        Phase::NumericalFailure
    } else if check_due(n) && report.within_tolerance {
        Phase::Converged
    } else if n >= budget {
        Phase::MaxIterationsReached
    } else {
        Phase::Running
    }
}

/// The state after one more report. A run that is over stays as it is.
pub open spec fn step(s: State, report: StepReport) -> State {
    if s.phase != Phase::Running {
        s
    } else {
        State {
            iteration: s.iteration + 1,
            budget: s.budget,
            phase: verdict(s.iteration + 1, s.budget, report),
        }
    }
}

/// The state after a sequence of reports, first report first.
pub open spec fn run(s: State, reports: Seq<StepReport>) -> State
    decreases reports.len(),
{
    if reports.len() == 0 {
        s
    } else {
        step(run(s, reports.drop_last()), reports.last())
    }
}

/// What holds of every state a run can be in.
pub open spec fn well_formed(s: State) -> bool {
    &&& 0 <= s.iteration <= s.budget
    &&& s.phase == Phase::Running ==> s.iteration < s.budget
    &&& s.phase == Phase::MaxIterationsReached ==> s.iteration == s.budget
    &&& s.phase == Phase::Converged ==> s.iteration >= CHECK_INTERVAL && check_due(s.iteration)
    &&& s.phase == Phase::NumericalFailure ==> s.iteration >= 1
}

/// What the caller has to do in state `s`.
pub open spec fn action_of(s: State) -> Action {
    match s.phase {
        Phase::Running => Action::Iterate {
            iteration: (s.iteration + 1) as usize,
            check_convergence: check_due(s.iteration + 1),
        },
        Phase::Converged => Action::Finish {
            outcome: Outcome::Converged { iterations: s.iteration as usize },
        },
        Phase::MaxIterationsReached => Action::Finish {
            outcome: Outcome::MaxIterationsReached { iterations: s.iteration as usize },
        },
        Phase::NumericalFailure => Action::Finish {
            outcome: Outcome::NumericalFailure { iteration: s.iteration as usize },
        },
    }
}

/// Drives the iteration of a solver: counts iterations against a budget, says
/// when convergence is to be examined, and ends the run.
///
/// The caller carries out the numerical work. It asks for the next action,
/// performs it, and records what it observed, until the action is to finish.
#[derive(Clone, Copy, Debug)]
pub struct Driver {
    iteration: usize,
    max_iterations: usize,
    phase: Phase,
}

impl View for Driver {
    type V = State;

    closed spec fn view(&self) -> State {
        State {
            iteration: self.iteration as int,
            budget: self.max_iterations as int,
            phase: self.phase,
        }
    }
}

impl Driver {
    #[verifier::type_invariant]
    closed spec fn inv(&self) -> bool {
        well_formed(self@)
    }

    /// A run that may take up to `max_iterations` iterations.
    pub fn new(max_iterations: usize) -> (r: Driver)
        ensures
            r@ == initial(max_iterations as int),
    {
        let phase = if max_iterations > 0 {
            Phase::Running
        } else {
            Phase::MaxIterationsReached
        };
        Driver { iteration: 0, max_iterations, phase }
    }

    /// The number of iterations recorded so far.
    pub fn iteration(&self) -> (r: usize)
        ensures
            r == self@.iteration,
            r <= self@.budget,
    {
        proof {
            use_type_invariant(self);
        }
        self.iteration
    }

    /// The iteration budget.
    pub fn max_iterations(&self) -> (r: usize)
        ensures
            r == self@.budget,
    {
        self.max_iterations
    }

    /// Where the run stands.
    pub fn phase(&self) -> (r: Phase)
        ensures
            r == self@.phase,
            well_formed(self@),
    {
        proof {
            use_type_invariant(self);
        }
        self.phase
    }

    /// What the caller has to do next.
    pub fn next_action(&self) -> (r: Action)
        ensures
            r == action_of(self@),
    {
        proof {
            use_type_invariant(self);
        }
        match self.phase {
            Phase::Running => {
                let next: usize = self.iteration + 1;
                Action::Iterate { iteration: next, check_convergence: next % CHECK_INTERVAL == 0 }
            },
            Phase::Converged => Action::Finish {
                outcome: Outcome::Converged { iterations: self.iteration },
            },
            Phase::MaxIterationsReached => Action::Finish {
                outcome: Outcome::MaxIterationsReached { iterations: self.iteration },
            },
            Phase::NumericalFailure => Action::Finish {
                outcome: Outcome::NumericalFailure { iteration: self.iteration },
            },
        }
    }

    /// Records what the caller observed of the iteration it was asked to carry
    /// out. Once the run is over, further reports change nothing.
    pub fn record(&mut self, report: StepReport)
        ensures
            final(self)@ == step(old(self)@, report),
    {
        proof {
            use_type_invariant(&*self);
        }
        if self.phase == Phase::Running {
            let next: usize = self.iteration + 1;
            let phase = if !report.finite {
                Phase::NumericalFailure
            } else if next % CHECK_INTERVAL == 0 && report.within_tolerance {
                Phase::Converged
            } else if next >= self.max_iterations {
                Phase::MaxIterationsReached
            } else {
                Phase::Running
            };
            *self = Driver { iteration: next, max_iterations: self.max_iterations, phase };
        }
    }
}

/// A step keeps a state well formed.
pub proof fn lemma_step_well_formed(s: State, report: StepReport)
    requires
        well_formed(s),
    ensures
        well_formed(step(s, report)),
{
}

/// A run that is over stays over, in the same state, whatever is reported.
pub proof fn lemma_finished_is_final(s: State, reports: Seq<StepReport>)
    requires
        s.phase != Phase::Running,
    ensures
        run(s, reports) == s,
    decreases reports.len(),
{
    if reports.len() > 0 {
        lemma_finished_is_final(s, reports.drop_last());
    }
}

/// Running the reports `a` and then the reports `b` is running `a + b`.
pub proof fn lemma_run_concat(s: State, a: Seq<StepReport>, b: Seq<StepReport>)
    ensures
        run(s, a + b) == run(run(s, a), b),
    decreases b.len(),
{
    if b.len() == 0 {
        assert(a + b =~= a);
    } else {
        lemma_run_concat(s, a, b.drop_last());
        assert((a + b).drop_last() =~= a + b.drop_last());
    }
}

/// Every state of a run is well formed, and no run has counted more
/// iterations than it has received reports.
pub proof fn lemma_run_well_formed(budget: int, reports: Seq<StepReport>)
    requires
        budget >= 0,
    ensures
        well_formed(run(initial(budget), reports)),
        run(initial(budget), reports).budget == budget,
        run(initial(budget), reports).iteration <= reports.len(),
    decreases reports.len(),
{
    if reports.len() > 0 {
        lemma_run_well_formed(budget, reports.drop_last());
    }
}

/// While a run goes on, it has counted every report it received.
pub proof fn lemma_running_counts_reports(budget: int, reports: Seq<StepReport>)
    requires
        budget >= 0,
        run(initial(budget), reports).phase == Phase::Running,
    ensures
        run(initial(budget), reports).iteration == reports.len(),
    decreases reports.len(),
{
    if reports.len() > 0 {
        let before = run(initial(budget), reports.drop_last());
        if before.phase == Phase::Running {
            lemma_running_counts_reports(budget, reports.drop_last());
        }
    }
}

/// A run is over once it has received as many reports as its budget allows
/// iterations, whatever they say.
pub proof fn lemma_run_terminates(budget: int, reports: Seq<StepReport>)
    requires
        0 <= budget <= reports.len(),
    ensures
        run(initial(budget), reports).phase != Phase::Running,
{
    if run(initial(budget), reports).phase == Phase::Running {
        lemma_running_counts_reports(budget, reports);
        lemma_run_well_formed(budget, reports);
    }
}

/// Convergence is only ever declared after a whole number of check
/// intervals, and never before the first check.
pub proof fn lemma_converged_on_cadence(budget: int, reports: Seq<StepReport>)
    requires
        budget >= 0,
        run(initial(budget), reports).phase == Phase::Converged,
    ensures
        run(initial(budget), reports).iteration % (CHECK_INTERVAL as int) == 0,
        CHECK_INTERVAL <= run(initial(budget), reports).iteration <= budget,
{
    lemma_run_well_formed(budget, reports);
}

/// As long as no iteration ends the run, the run goes on and has counted
/// every report.
pub proof fn lemma_run_goes_on(budget: int, reports: Seq<StepReport>)
    requires
        budget > 0,
        forall|i: int|
            0 <= i < reports.len() ==> verdict(i + 1, budget, #[trigger] reports[i])
                == Phase::Running,
    ensures
        run(initial(budget), reports) == (State {
            iteration: reports.len() as int,
            budget,
            phase: Phase::Running,
        }),
    decreases reports.len(),
{
    if reports.len() > 0 {
        lemma_run_goes_on(budget, reports.drop_last());
    }
}

/// A run ends with the first iteration whose verdict is not to go on: it has
/// then counted that iteration, its phase is that verdict, and no later
/// report changes either.
pub proof fn lemma_run_stops_at_first_halt(budget: int, reports: Seq<StepReport>, k: int)
    requires
        budget > 0,
        0 <= k < reports.len(),
        forall|i: int|
            0 <= i < k ==> verdict(i + 1, budget, #[trigger] reports[i]) == Phase::Running,
        verdict(k + 1, budget, reports[k]) != Phase::Running,
    ensures
        run(initial(budget), reports) == (State {
            iteration: k + 1,
            budget,
            phase: verdict(k + 1, budget, reports[k]),
        }),
{
    let head = reports.take(k + 1);
    let tail = reports.skip(k + 1);
    assert(head.drop_last() =~= reports.take(k));
    lemma_run_goes_on(budget, reports.take(k));
    assert(reports =~= head + tail);
    lemma_run_concat(initial(budget), head, tail);
    lemma_finished_is_final(run(initial(budget), head), tail);
}

} // verus!

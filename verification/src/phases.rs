use vstd::prelude::*;

verus! {

/// One discrete step of the build pipeline, in its fixed execution order.
#[derive(Clone, Copy, PartialEq, Eq, Structural, Debug)]
pub enum Phase {
    Destroy,
    Clean,
    Configure,
    Build,
    Target,
    Test,
    Coverage,
    Lint,
    Install,
}

/// The fully expanded set of phases to run, derived once from the requested
/// actions and held immutable for the whole run.
#[derive(Clone, Copy, PartialEq, Eq, Structural, Debug)]
pub struct EffectivePhaseSet {
    pub destroy: bool,
    pub clean: bool,
    pub configure: bool,
    pub build: bool,
    pub target: bool,
    pub test: bool,
    pub coverage: bool,
    pub lint: bool,
    pub install: bool,
}

/// Position of a phase in the fixed execution order.
pub open spec fn phase_rank(ph: Phase) -> int {
    match ph {
        Phase::Destroy => 0,
        Phase::Clean => 1,
        Phase::Configure => 2,
        Phase::Build => 3,
        Phase::Target => 4,
        Phase::Test => 5,
        Phase::Coverage => 6,
        Phase::Lint => 7,
        Phase::Install => 8,
    }
}

pub open spec fn opt_phase(b: bool, ph: Phase) -> Seq<Phase> {
    if b {
        seq![ph]
    } else {
        Seq::empty()
    }
}

/// The ordered list of phases a run will attempt, assuming every attempted
/// phase succeeds. Destroy is attempted only when the build directory exists
/// (removal of an absent directory is a no-op, not a failure). Clean is
/// attempted only when the directory still exists after destroy has had its
/// turn. A named target is built only when the reserved name "clean" did not
/// already turn the request into a clean phase.
pub open spec fn spec_plan(p: EffectivePhaseSet, dir_exists: bool) -> Seq<Phase> {
    opt_phase(p.destroy && dir_exists, Phase::Destroy)
        + opt_phase(p.clean && dir_exists && !p.destroy, Phase::Clean)
        + opt_phase(p.configure, Phase::Configure)
        + opt_phase(p.build, Phase::Build)
        + opt_phase(p.target && !p.clean, Phase::Target)
        + opt_phase(p.test, Phase::Test)
        + opt_phase(p.coverage, Phase::Coverage)
        + opt_phase(p.lint, Phase::Lint)
        + opt_phase(p.install, Phase::Install)
}

/// Computes the ordered phase list for one run.
#[verifier::rlimit(50)]
pub fn plan(p: &EffectivePhaseSet, dir_exists: bool) -> (r: Vec<Phase>)
    ensures
        r@ == spec_plan(*p, dir_exists),
{
    let mut v: Vec<Phase> = Vec::new();
    if p.destroy && dir_exists {
        v.push(Phase::Destroy);
    }
    proof {
        assert(v@ =~= opt_phase(p.destroy && dir_exists, Phase::Destroy));
    }
    let ghost s1 = v@;
    if p.clean && dir_exists && !p.destroy {
        v.push(Phase::Clean);
    }
    proof {
        assert(v@ =~= s1 + opt_phase(p.clean && dir_exists && !p.destroy, Phase::Clean));
    }
    let ghost s2 = v@;
    if p.configure {
        v.push(Phase::Configure);
    }
    proof {
        assert(v@ =~= s2 + opt_phase(p.configure, Phase::Configure));
    }
    let ghost s3 = v@;
    if p.build {
        v.push(Phase::Build);
    }
    proof {
        assert(v@ =~= s3 + opt_phase(p.build, Phase::Build));
    }
    let ghost s4 = v@;
    if p.target && !p.clean {
        v.push(Phase::Target);
    }
    proof {
        assert(v@ =~= s4 + opt_phase(p.target && !p.clean, Phase::Target));
    }
    let ghost s5 = v@;
    if p.test {
        v.push(Phase::Test);
    }
    proof {
        assert(v@ =~= s5 + opt_phase(p.test, Phase::Test));
    }
    let ghost s6 = v@;
    if p.coverage {
        v.push(Phase::Coverage);
    }
    proof {
        assert(v@ =~= s6 + opt_phase(p.coverage, Phase::Coverage));
    }
    let ghost s7 = v@;
    if p.lint {
        v.push(Phase::Lint);
    }
    proof {
        assert(v@ =~= s7 + opt_phase(p.lint, Phase::Lint));
    }
    let ghost s8 = v@;
    if p.install {
        v.push(Phase::Install);
    }
    proof {
        assert(v@ =~= s8 + opt_phase(p.install, Phase::Install));
    }
    v
}

/// How many invocations a run makes when `results[i]` is the outcome of the
/// i-th attempted invocation: the scan stops right after the first failure.
pub open spec fn spec_attempts_from(results: Seq<bool>, n: int, i: int) -> int
    decreases n - i,
{
    if i < 0 || i >= n {
        i
    } else if results[i] {
        spec_attempts_from(results, n, i + 1)
    } else {
        i + 1
    }
}

pub open spec fn spec_attempts(results: Seq<bool>, n: int) -> int {
    spec_attempts_from(results, n, 0)
}

/// The phases a run actually executes: the planned prefix up to and
/// including the first failing invocation.
pub open spec fn spec_executed(plan: Seq<Phase>, results: Seq<bool>) -> Seq<Phase> {
    plan.take(spec_attempts(results, plan.len() as int))
}

/// The final status a run reports: success exactly when every planned phase
/// was attempted and succeeded.
pub open spec fn spec_final_status(plan: Seq<Phase>, results: Seq<bool>) -> bool {
    forall|i: int| 0 <= i < plan.len() ==> results[i]
}

proof fn lemma_attempts_step(results: Seq<bool>, n: int, i: int)
    requires
        0 <= i < n,
    ensures
        spec_attempts_from(results, n, i) == if results[i] {
            spec_attempts_from(results, n, i + 1)
        } else {
            i + 1
        },
{
}

proof fn lemma_attempts_from(results: Seq<bool>, n: int, i: int)
    requires
        0 <= i <= n,
    ensures
        i <= spec_attempts_from(results, n, i) <= n,
        forall|j: int| i <= j < spec_attempts_from(results, n, i) - 1 ==> results[j],
        spec_attempts_from(results, n, i) < n ==> !results[spec_attempts_from(results, n, i) - 1],
        (forall|j: int| i <= j < n ==> results[j]) ==> spec_attempts_from(results, n, i) == n,
    decreases n - i,
{
    if i < n && results[i] {
        lemma_attempts_from(results, n, i + 1);
    }
}

proof fn lemma_opt_extend(s: Seq<Phase>, b: bool, ph: Phase)
    requires
        forall|j: int, k: int| 0 <= j < k < s.len() ==> phase_rank(s[j]) < phase_rank(s[k]),
        forall|j: int| 0 <= j < s.len() ==> phase_rank(s[j]) < phase_rank(ph),
    ensures
        forall|j: int, k: int|
            0 <= j < k < (s + opt_phase(b, ph)).len() ==> phase_rank((s + opt_phase(b, ph))[j])
                < phase_rank((s + opt_phase(b, ph))[k]),
        forall|j: int|
            0 <= j < (s + opt_phase(b, ph)).len() ==> phase_rank((s + opt_phase(b, ph))[j])
                <= phase_rank(ph),
{
}

/// Every phase in a plan stands strictly before every later one in the fixed
/// execution order, so a plan never repeats a phase and never reorders two.
#[verifier::rlimit(100)]
pub proof fn lemma_plan_sorted(p: EffectivePhaseSet, dir_exists: bool, j: int, k: int)
    requires
        0 <= j < k < spec_plan(p, dir_exists).len(),
    ensures
        phase_rank(spec_plan(p, dir_exists)[j]) < phase_rank(spec_plan(p, dir_exists)[k]),
{
    let e = Seq::<Phase>::empty();
    let c1 = e + opt_phase(p.destroy && dir_exists, Phase::Destroy);
    let c2 = c1 + opt_phase(p.clean && dir_exists && !p.destroy, Phase::Clean);
    let c3 = c2 + opt_phase(p.configure, Phase::Configure);
    let c4 = c3 + opt_phase(p.build, Phase::Build);
    let c5 = c4 + opt_phase(p.target && !p.clean, Phase::Target);
    let c6 = c5 + opt_phase(p.test, Phase::Test);
    let c7 = c6 + opt_phase(p.coverage, Phase::Coverage);
    let c8 = c7 + opt_phase(p.lint, Phase::Lint);
    let c9 = c8 + opt_phase(p.install, Phase::Install);
    lemma_opt_extend(e, p.destroy && dir_exists, Phase::Destroy);
    lemma_opt_extend(c1, p.clean && dir_exists && !p.destroy, Phase::Clean);
    lemma_opt_extend(c2, p.configure, Phase::Configure);
    lemma_opt_extend(c3, p.build, Phase::Build);
    lemma_opt_extend(c4, p.target && !p.clean, Phase::Target);
    lemma_opt_extend(c5, p.test, Phase::Test);
    lemma_opt_extend(c6, p.coverage, Phase::Coverage);
    lemma_opt_extend(c7, p.lint, Phase::Lint);
    lemma_opt_extend(c8, p.install, Phase::Install);
    assert(e + opt_phase(p.destroy && dir_exists, Phase::Destroy) =~= opt_phase(
        p.destroy && dir_exists,
        Phase::Destroy,
    ));
    assert(spec_plan(p, dir_exists) == c9);
}

#[verifier::rlimit(100)]
proof fn lemma_no_phase_past_failure(
    p: EffectivePhaseSet,
    dir_exists: bool,
    results: Seq<bool>,
    j: int,
    ph: Phase,
)
    requires
        results.len() >= spec_plan(p, dir_exists).len(),
        0 <= j < spec_executed(spec_plan(p, dir_exists), results).len(),
        spec_executed(spec_plan(p, dir_exists), results)[j] == Phase::Build,
        !results[j],
        phase_rank(ph) > phase_rank(Phase::Build),
    ensures
        !spec_executed(spec_plan(p, dir_exists), results).contains(ph),
{
    let plan0 = spec_plan(p, dir_exists);
    let n = plan0.len() as int;
    lemma_attempts_from(results, n, 0);
    let af = spec_attempts(results, n);
    assert(j == af - 1);
    let exec0 = spec_executed(plan0, results);
    assert(plan0[j] == Phase::Build);
    if exec0.contains(ph) {
        let k = choose|k: int| 0 <= k < exec0.len() && exec0[k] == ph;
        assert(plan0[k] == ph);
        assert(k != j);
        if k < j {
            lemma_plan_sorted(p, dir_exists, k, j);
        }
        assert(false);
    }
}

/// The short-circuit law: if the build phase is attempted and fails, then
/// none of the test, coverage, lint or install phases is executed, and the
/// run reports failure.
pub proof fn lemma_build_failure_short_circuits(
    p: EffectivePhaseSet,
    dir_exists: bool,
    results: Seq<bool>,
    j: int,
)
    requires
        results.len() >= spec_plan(p, dir_exists).len(),
        0 <= j < spec_executed(spec_plan(p, dir_exists), results).len(),
        spec_executed(spec_plan(p, dir_exists), results)[j] == Phase::Build,
        !results[j],
    ensures
        !spec_executed(spec_plan(p, dir_exists), results).contains(Phase::Test),
        !spec_executed(spec_plan(p, dir_exists), results).contains(Phase::Coverage),
        !spec_executed(spec_plan(p, dir_exists), results).contains(Phase::Lint),
        !spec_executed(spec_plan(p, dir_exists), results).contains(Phase::Install),
        !spec_final_status(spec_plan(p, dir_exists), results),
{
    lemma_no_phase_past_failure(p, dir_exists, results, j, Phase::Test);
    lemma_no_phase_past_failure(p, dir_exists, results, j, Phase::Coverage);
    lemma_no_phase_past_failure(p, dir_exists, results, j, Phase::Lint);
    lemma_no_phase_past_failure(p, dir_exists, results, j, Phase::Install);
    let plan0 = spec_plan(p, dir_exists);
    let n = plan0.len() as int;
    lemma_attempts_from(results, n, 0);
    assert(0 <= j < plan0.len() && !results[j]);
}

/// Walks a phase plan in order, handing out the next phase to attempt and
/// taking back each outcome. Once any outcome is a failure, no further phase
/// is handed out, but the caller may still finish its scan and read one
/// final status.
pub struct Runner {
    plan: Vec<Phase>,
    idx: usize,
    status: bool,
}

impl Runner {
    /// The plan this runner walks.
    pub closed spec fn phases(self) -> Seq<Phase> {
        self.plan@
    }

    /// How many phases have been handed out so far.
    pub closed spec fn pos(self) -> int {
        self.idx as int
    }

    /// The running success accumulator.
    pub closed spec fn ok(self) -> bool {
        self.status
    }

    pub fn new(plan: Vec<Phase>) -> (r: Runner)
        ensures
            r.phases() == plan@,
            r.pos() == 0,
            r.ok(),
    {
        Runner { plan, idx: 0, status: true }
    }

    /// The next phase to attempt, or nothing once the scan is past the end
    /// or a failure has been recorded.
    pub fn next_phase(&mut self) -> (r: Option<Phase>)
        ensures
            final(self).phases() == old(self).phases(),
            final(self).ok() == old(self).ok(),
            old(self).ok() && old(self).pos() < old(self).phases().len() ==> r == Some(
                old(self).phases()[old(self).pos()],
            ) && final(self).pos() == old(self).pos() + 1,
            !(old(self).ok() && old(self).pos() < old(self).phases().len()) ==> r is None
                && final(self).pos() == old(self).pos(),
    {
        if self.status && self.idx < self.plan.len() {
            let ph = self.plan[self.idx];
            self.idx = self.idx + 1;
            Some(ph)
        } else {
            None
        }
    }

    /// Folds one phase outcome into the success accumulator.
    pub fn record(&mut self, success: bool)
        ensures
            final(self).phases() == old(self).phases(),
            final(self).pos() == old(self).pos(),
            final(self).ok() == (old(self).ok() && success),
    {
        self.status = self.status && success;
    }

    /// The overall status so far.
    pub fn status(&self) -> (r: bool)
        ensures
            r == self.ok(),
    {
        self.status
    }
}

/// Replays a whole plan against a list of predetermined outcomes, where
/// `results[i]` is the outcome of the i-th attempted invocation. Returns the
/// phases that were executed and the final status.
pub fn run_plan(plan: &Vec<Phase>, results: &Vec<bool>) -> (r: (Vec<Phase>, bool))
    requires
        results@.len() >= plan@.len(),
    ensures
        r.0@ == spec_executed(plan@, results@),
        r.1 == spec_final_status(plan@, results@),
{
    let ghost n = plan@.len() as int;
    let mut runner = Runner::new(plan.clone());
    let mut executed: Vec<Phase> = Vec::new();
    let mut i: usize = 0;
    let mut done = false;
    while !done
        invariant
            n == plan@.len() as int,
            runner.phases() == plan@,
            runner.pos() == i as int,
            i <= plan@.len(),
            results@.len() >= plan@.len(),
            executed@ == plan@.take(i as int),
            runner.ok() == (forall|k: int| 0 <= k < i ==> results@[k]),
            spec_attempts(results@, n) == if runner.ok() {
                spec_attempts_from(results@, n, i as int)
            } else {
                i as int
            },
            done ==> !(runner.ok() && i < plan@.len()),
        decreases plan@.len() - i + (if done {
            0int
        } else {
            1int
        }),
    {
        let next = runner.next_phase();
        match next {
            Some(ph) => {
                executed.push(ph);
                runner.record(results[i]);
                proof {
                    assert(plan@.take(i as int).push(ph) =~= plan@.take(i as int + 1));
                    lemma_attempts_step(results@, n, i as int);
                }
                i = i + 1;
            },
            None => {
                done = true;
            },
        }
    }
    proof {
        if runner.ok() {
            assert(i as int == plan@.len());
            assert(spec_attempts_from(results@, n, i as int) == i as int);
        }
        assert(executed@ == spec_executed(plan@, results@));
        if !runner.ok() {
            let k = choose|k: int| 0 <= k < i && !results@[k];
            assert(0 <= k < plan@.len() && !results@[k]);
            assert(!spec_final_status(plan@, results@));
        }
    }
    let status = runner.status();
    (executed, status)
}

} // verus!

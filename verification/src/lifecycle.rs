//! Recursive lifecycle execution of a configuration or of a selected
//! scenario subtree.
use vstd::prelude::*;

use crate::config::{declares, Config, NamedTest, PhaseDefinition, Scenario, ScenarioMap};
use crate::converger::{Converger, ConvergerError};
use crate::inventory::{host_names, hosts, inventory_document, names_of};
use crate::keep::KeepMode;
use crate::provisioner::{Provisioner, ProvisionerError};
use crate::report::{
    phase_result_line, phase_running_line, scenario_entrance, scenario_verdict_line, summary_line,
    RunOutcome,
};
use crate::schema::ConfiguredPhase;
use crate::selector::{child_path, lemma_below_child, path_with_child, same_or_below, split_segments};
use crate::state::{
    ancestor_path, destroyed_all, fail_count, is_result, now, visible, Attribute, ErrorRecord, LifecyclePhase, PhaseStatus, Resource,
    ResourceLocation, ResourceManifest, RunState, ScenarioView, SuiteResult, VerifierStatus,
};
use crate::text::owned;
use crate::value::Value;
use crate::verifiers::{Verifier, VerifierError};

verus! {

/// Where a run keeps its state and writes its output.
///
/// Implementations write files and terminals; nothing is assumed of what
/// they return, and the runner handles every outcome.
pub trait Journal {
    /// Saves the run state durably.
    fn save(&mut self, state: &RunState) -> Result<(), String>;

    /// Writes one line of run output.
    fn write_line(&mut self, line: &str) -> Result<(), String>;

    /// Writes the runtime inventory view of a scenario and returns the path
    /// of the file it wrote.
    fn write_inventory_view(&mut self, scenario_path: &str, document: &Value) -> Result<
        String,
        String,
    >;
}

/// Why a run stopped before it finished.
pub enum LifecycleError {
    /// The state could not be saved.
    State(String),
    /// The output could not be written.
    Output(String),
    /// The selected scenario does not exist.
    InvalidSelector(String),
}

// ---------------------------------------------------------------------------
// What the runner keeps true.
/// A scenario is disposed of when its resources, if any, went through its
/// destroy phase (passed, failed or skipped), and a passed destroy phase
/// left none of them existing.
pub open spec fn disposed(v: ScenarioView) -> bool {
    &&& v.resources.len() > 0 ==> (v.phases.at(LifecyclePhase::Destroy) matches Some(s)
        && is_result(s.status))
    &&& (v.phases.at(LifecyclePhase::Destroy) matches Some(s) && s.status == PhaseStatus::Pass)
        ==> forall|i: int| 0 <= i < v.resources.len() ==> !(#[trigger] v.resources[i]).exists
}

/// Every entered scenario at or below `p` is disposed of.
pub open spec fn below_disposed(st: RunState, p: Seq<char>) -> bool {
    forall|q: Seq<char>| same_or_below(q, p) && #[trigger] st.entered(q) ==> disposed(st.scenario(q)->0)
}

/// Every entered scenario strictly below `p` is disposed of.
pub open spec fn strictly_below_disposed(st: RunState, p: Seq<char>) -> bool {
    forall|q: Seq<char>|
        same_or_below(q, p) && q != p && #[trigger] st.entered(q) ==> disposed(st.scenario(q)->0)
}

/// Every entered scenario is disposed of.
pub open spec fn all_disposed(st: RunState) -> bool {
    forall|q: Seq<char>| #[trigger] st.entered(q) ==> disposed(st.scenario(q)->0)
}

/// `b` differs from `a` only in scenarios at or below `p`.
pub open spec fn within(a: RunState, b: RunState, p: Seq<char>) -> bool {
    &&& b.wf()
    &&& b.run_id@ == a.run_id@
    &&& forall|q: Seq<char>| !same_or_below(q, p) ==> #[trigger] b.entered(q) == a.entered(q)
    &&& forall|q: Seq<char>| !same_or_below(q, p) ==> #[trigger] b.scenario(q) == a.scenario(q)
}

/// `b` differs from `a` only in the scenario at `p`.
pub open spec fn changes_only(a: RunState, b: RunState, p: Seq<char>) -> bool {
    &&& b.wf()
    &&& b.run_id@ == a.run_id@
    &&& forall|q: Seq<char>| #[trigger] b.entered(q) == a.entered(q)
    &&& forall|q: Seq<char>| q != p ==> #[trigger] b.scenario(q) == a.scenario(q)
}

/// Two states of one scenario with the same resources and destroy phase.
pub open spec fn same_disposal(a: ScenarioView, b: ScenarioView) -> bool {
    &&& b.resources == a.resources
    &&& b.phases.at(LifecyclePhase::Destroy) == a.phases.at(LifecyclePhase::Destroy)
}

/// `b` differs from `a` only in the scenario at `p`, and not in its
/// resources or its destroy phase.
pub open spec fn local(a: RunState, b: RunState, p: Seq<char>) -> bool {
    &&& changes_only(a, b, p)
    &&& a.entered(p) ==> same_disposal(a.scenario(p)->0, b.scenario(p)->0)
}

/// `b` holds the same scenarios as `a`.
pub open spec fn same_scenarios(a: RunState, b: RunState) -> bool {
    &&& b.scenarios@ == a.scenarios@
    &&& b.run_id@ == a.run_id@
    &&& forall|q: Seq<char>| #[trigger] b.entered(q) == a.entered(q)
    &&& forall|q: Seq<char>| #[trigger] b.scenario(q) == a.scenario(q)
}

proof fn lemma_then_same(a: RunState, b: RunState, c: RunState, p: Seq<char>)
    requires
        changes_only(a, b, p),
        same_scenarios(b, c),
    ensures
        changes_only(a, c, p),
        c.scenario(p) == b.scenario(p),
{
    assert forall|q: Seq<char>| #[trigger] c.entered(q) == a.entered(q) by {
        assert(b.entered(q) == a.entered(q));
    }
    assert forall|q: Seq<char>| q != p implies #[trigger] c.scenario(q) == a.scenario(q) by {
        assert(b.scenario(q) == a.scenario(q));
    }
    assert(c.scenario(p) == b.scenario(p));
}

proof fn lemma_changes_trans(a: RunState, b: RunState, c: RunState, p: Seq<char>)
    requires
        changes_only(a, b, p),
        changes_only(b, c, p),
    ensures
        changes_only(a, c, p),
{
    assert forall|q: Seq<char>| #[trigger] c.entered(q) == a.entered(q) by {
        assert(b.entered(q) == a.entered(q));
    }
    assert forall|q: Seq<char>| q != p implies #[trigger] c.scenario(q) == a.scenario(q) by {
        assert(b.scenario(q) == a.scenario(q));
    }
}

proof fn lemma_local_trans(a: RunState, b: RunState, c: RunState, p: Seq<char>)
    requires
        local(a, b, p),
        local(b, c, p),
    ensures
        local(a, c, p),
{
    lemma_changes_trans(a, b, c, p);
}

proof fn lemma_changes_within(a: RunState, b: RunState, p: Seq<char>)
    requires
        changes_only(a, b, p),
    ensures
        within(a, b, p),
{
    assert forall|q: Seq<char>| !same_or_below(q, p) implies #[trigger] b.scenario(q) == a.scenario(q) by {
        assert(q != p);
    }
}

proof fn lemma_within_trans(a: RunState, b: RunState, c: RunState, p: Seq<char>)
    requires
        within(a, b, p),
        within(b, c, p),
    ensures
        within(a, c, p),
{
    assert forall|q: Seq<char>| !same_or_below(q, p) implies #[trigger] c.entered(q) == a.entered(q) by {
        assert(b.entered(q) == a.entered(q));
    }
    assert forall|q: Seq<char>| !same_or_below(q, p) implies #[trigger] c.scenario(q) == a.scenario(q) by {
        assert(b.scenario(q) == a.scenario(q));
    }
}

/// Changes to one scenario keep every other scenario disposed of.
proof fn lemma_changes_keep_disposed(a: RunState, b: RunState, p: Seq<char>)
    requires
        changes_only(a, b, p),
        strictly_below_disposed(a, p),
    ensures
        strictly_below_disposed(b, p),
{
    assert forall|q: Seq<char>| same_or_below(q, p) && q != p && #[trigger] b.entered(q) implies disposed(
        b.scenario(q)->0,
    ) by {
        assert(a.entered(q));
        assert(b.scenario(q) == a.scenario(q));
    }
}

/// The lifecycle phase that runs a configured phase.
pub open spec fn lifecycle_phase(phase: ConfiguredPhase) -> LifecyclePhase {
    match phase {
        ConfiguredPhase::Create => LifecyclePhase::Create,
        ConfiguredPhase::Prepare => LifecyclePhase::Prepare,
        ConfiguredPhase::Converge => LifecyclePhase::Converge,
        ConfiguredPhase::Idempotence => LifecyclePhase::Idempotence,
        ConfiguredPhase::Verify => LifecyclePhase::Verify,
        ConfiguredPhase::Cleanup => LifecyclePhase::Cleanup,
        ConfiguredPhase::Destroy => LifecyclePhase::Destroy,
    }
}

/// The configured phase that a lifecycle phase other than the dependency
/// phase runs.
pub open spec fn configured_of(phase: LifecyclePhase) -> ConfiguredPhase {
    match phase {
        LifecyclePhase::Prepare => ConfiguredPhase::Prepare,
        LifecyclePhase::Converge => ConfiguredPhase::Converge,
        LifecyclePhase::Idempotence => ConfiguredPhase::Idempotence,
        LifecyclePhase::Verify => ConfiguredPhase::Verify,
        LifecyclePhase::Cleanup => ConfiguredPhase::Cleanup,
        LifecyclePhase::Destroy => ConfiguredPhase::Destroy,
        _ => ConfiguredPhase::Create,
    }
}

/// Whether every definition of `phase` in a scenario runs a playbook.
pub open spec fn runs_playbook(s: Scenario, phase: ConfiguredPhase) -> bool {
    forall|i: int|
        0 <= i < s.phases@.len() && (#[trigger] s.phases@[i]).phase == phase ==> s.phases@[i].definition.playbook is Some
            && s.phases@[i].definition.vars is Some
}

/// Changing only the phases of the scenario at `p` leaves what every
/// scenario sees unchanged.
proof fn lemma_visible_same(a: RunState, b: RunState, p: Seq<char>, segs: Seq<Seq<char>>, n: int)
    requires
        forall|q: Seq<char>| q != p ==> #[trigger] b.scenario(q) == a.scenario(q),
        a.scenario(p) is Some,
        b.scenario(p) is Some,
        b.scenario(p)->0.resources == a.scenario(p)->0.resources,
    ensures
        crate::state::visible_upto(b, segs, n) == crate::state::visible_upto(a, segs, n),
    decreases n,
{
    if n > 0 {
        lemma_visible_same(a, b, p, segs, n - 1);
        let q = crate::state::ancestor_path(segs, n - 1);
        if q != p {
            assert(b.scenario(q) == a.scenario(q));
        }
    }
}

/// Whether `phase` of a scenario is recorded as passed or skipped.
pub open spec fn settled(v: ScenarioView, phase: LifecyclePhase) -> bool {
    v.phases.at(phase) matches Some(s) && (s.status == PhaseStatus::Pass || s.status
        == PhaseStatus::Skipped)
}

/// Whether the scenario at `p` has in `b` the phase states it has in `a`,
/// but for `phase`.
/// Whether `b` holds an execution error that `a` did not: a first primary
/// error, or another cleanup error.
pub open spec fn new_error(a: RunState, b: RunState) -> bool {
    ||| a.primary_error is None && b.primary_error is Some
    ||| b.cleanup_errors@.len() != a.cleanup_errors@.len()
}

/// Whether `phase` of a scenario is recorded as failed.
pub open spec fn failed_at(v: ScenarioView, phase: LifecyclePhase) -> bool {
    v.phases.at(phase) matches Some(st) && st.status == PhaseStatus::Error
}

/// Whether none of `phases` changed between two states of a scenario: no
/// later step ran.
pub open spec fn untouched(a: ScenarioView, b: ScenarioView, phases: Seq<LifecyclePhase>) -> bool {
    forall|i: int| 0 <= i < phases.len() ==> b.phases.at(#[trigger] phases[i]) == a.phases.at(phases[i])
}

/// Whether cleanup and destroy were both attempted for a scenario.
pub open spec fn torn_down(v: ScenarioView) -> bool {
    &&& v.phases.at(LifecyclePhase::Cleanup) is Some
    &&& v.phases.at(LifecyclePhase::Destroy) is Some
}

/// Whether a scenario stopped before its create step got past being
/// recorded: nothing can have been created.
pub open spec fn create_abandoned(v: ScenarioView) -> bool {
    v.phases.at(LifecyclePhase::Create) matches Some(st) && (st.status == PhaseStatus::Running
        || st.status == PhaseStatus::Skipped)
}

pub open spec fn phases_kept_but(a: RunState, b: RunState, p: Seq<char>, phase: LifecyclePhase) -> bool {
    forall|q: LifecyclePhase|
        q != phase ==> #[trigger] b.scenario(p)->0.phases.at(q) == a.scenario(p)->0.phases.at(q)
}

/// The text a run error carries.
pub open spec fn error_text(e: LifecycleError) -> Seq<char> {
    match e {
        LifecycleError::State(m) => m@,
        LifecycleError::Output(m) => m@,
        LifecycleError::InvalidSelector(m) => m@,
    }
}

/// Why an inventory view could not be used: the state recording it could
/// not be saved.
fn view_save_failure(e: &LifecycleError) -> (r: String)
    ensures
        r@ == "cannot persist inventory view: "@ + error_text(*e),
{
    let mut r = owned("cannot persist inventory view: ");
    match e {
        LifecycleError::State(m) => r.append(m.as_str()),
        LifecycleError::Output(m) => r.append(m.as_str()),
        LifecycleError::InvalidSelector(m) => r.append(m.as_str()),
    }
    r
}

/// The views of selector segments.
pub open spec fn segment_views(segs: Seq<String>) -> Seq<Seq<char>> {
    segs.map_values(|x: String| x@)
}

/// Whether a run travels toward a selected scenario: the selector has no
/// empty segment and the next segment to follow is among them.
pub open spec fn travelling(views: Seq<Seq<char>>, next: int) -> bool {
    &&& 1 <= next <= views.len()
    &&& forall|k: int| 0 <= k < views.len() ==> (#[trigger] views[k]).len() > 0
}

/// The path of the scenario that `views` select.
pub open spec fn selected_path(views: Seq<Seq<char>>) -> Seq<char> {
    ancestor_path(views, views.len() - 1)
}

/// Whether the scenario at `q` lies on the way to the scenario that
/// `views` select, or at or below it.
pub open spec fn toward(q: Seq<char>, views: Seq<Seq<char>>) -> bool {
    let target = ancestor_path(views, views.len() - 1);
    same_or_below(target, q) || same_or_below(q, target)
}

/// The path of a selected ancestor is never empty.
proof fn lemma_ancestor_nonempty(segs: Seq<Seq<char>>, i: int)
    requires
        0 <= i < segs.len(),
        forall|k: int| 0 <= k < segs.len() ==> (#[trigger] segs[k]).len() > 0,
    ensures
        ancestor_path(segs, i).len() > 0,
    decreases i,
{
    if i > 0 {
        lemma_ancestor_nonempty(segs, i - 1);
    }
}

/// What lies at or below a selected scenario lies below each of its
/// selected ancestors.
proof fn lemma_below_ancestor(q: Seq<char>, segs: Seq<Seq<char>>, i: int, j: int)
    requires
        0 <= i <= j < segs.len(),
        forall|k: int| 0 <= k < segs.len() ==> (#[trigger] segs[k]).len() > 0,
        same_or_below(q, ancestor_path(segs, j)),
    ensures
        same_or_below(q, ancestor_path(segs, i)),
    decreases j,
{
    if i < j {
        lemma_ancestor_nonempty(segs, j - 1);
        assert(ancestor_path(segs, j) == child_path(ancestor_path(segs, j - 1), segs[j]));
        lemma_below_child(q, ancestor_path(segs, j - 1), segs[j]);
        lemma_below_ancestor(q, segs, i, j - 1);
    }
}

/// Whether `results` hold one result per test of `tests`, in order, each
/// under its test's name.
/// `base + n`, saturated at the largest `usize`.
pub open spec fn saturating_plus(base: usize, n: nat) -> usize {
    if base + n >= usize::MAX {
        usize::MAX
    } else {
        (base + n) as usize
    }
}

/// Whether the verifier failures counted went from `vf0` to `vf1` by the
/// failed tests recorded between states `a` and `b`, saturating.
pub open spec fn failures_counted(vf0: usize, a: RunState, b: RunState, vf1: usize) -> bool {
    &&& a.failed_tests() <= b.failed_tests()
    &&& vf1 == saturating_plus(vf0, (b.failed_tests() - a.failed_tests()) as nat)
}

/// The test results recorded for the scenario at `p` between `a` and `b`.
pub open spec fn new_results(a: RunState, b: RunState, p: Seq<char>) -> Seq<SuiteResult> {
    b.scenario(p)->0.test_results.skip(a.scenario(p)->0.test_results.len() as int)
}

pub open spec fn results_named(results: Seq<SuiteResult>, tests: Seq<NamedTest>) -> bool {
    &&& results.len() == tests.len()
    &&& forall|j: int| 0 <= j < results.len() ==> (#[trigger] results[j]).name@ == tests[j].name@
}

/// The configured phase that a lifecycle phase runs; the dependency phase
/// has none.
pub fn configured_phase(phase: LifecyclePhase) -> (r: Option<ConfiguredPhase>)
    ensures
        phase == LifecyclePhase::Dependency <==> r is None,
        r matches Some(c) ==> lifecycle_phase(c) == phase,
        phase != LifecyclePhase::Dependency ==> r == Some(configured_of(phase)),
{
    match phase {
        LifecyclePhase::Dependency => None,
        LifecyclePhase::Create => Some(ConfiguredPhase::Create),
        LifecyclePhase::Prepare => Some(ConfiguredPhase::Prepare),
        LifecyclePhase::Converge => Some(ConfiguredPhase::Converge),
        LifecyclePhase::Idempotence => Some(ConfiguredPhase::Idempotence),
        LifecyclePhase::Verify => Some(ConfiguredPhase::Verify),
        LifecyclePhase::Cleanup => Some(ConfiguredPhase::Cleanup),
        LifecyclePhase::Destroy => Some(ConfiguredPhase::Destroy),
    }
}

/// The position of the child scenario named `name`.
pub fn find_child(map: &ScenarioMap, name: &str) -> (r: Option<usize>)
    ensures
        r matches Some(k) ==> k < map.entries@.len() && map.entries@[k as int].name@ == name@,
        r is None ==> forall|k: int| 0 <= k < map.entries@.len() ==> (#[trigger] map.entries@[k]).name@ != name@,
{
    let mut i: usize = 0;
    while i < map.entries.len()
        invariant
            i <= map.entries@.len(),
            forall|k: int| 0 <= k < i ==> (#[trigger] map.entries@[k]).name@ != name@,
        decreases map.entries.len() - i,
    {
        if crate::text::str_eq(map.entries[i].name.as_str(), name) {
            return Some(i);
        }
        i = i + 1;
    }
    None
}

/// What the create step of a scenario leaves to do next.
pub enum CreateStep {
    /// Create passed or was skipped: go on.
    Proceed,
    /// Create failed after resources may have been recorded: unwind.
    Unwind,
    /// Stop before anything was created.
    Abandon,
}

/// Runs the lifecycle of a configuration, or of a selected scenario subtree,
/// through its provisioner, converger and verifier.  State is saved and
/// output written through the journal.
pub struct LifecycleRunner<'a, P: Provisioner, C: Converger, V: Verifier, J: Journal> {
    pub configuration: &'a Config,
    pub state: RunState,
    pub keep_mode: KeepMode,
    pub provisioner: &'a P,
    pub converger: &'a C,
    pub verifier: &'a V,
    pub journal: J,
    pub styled_output: bool,
    pub outcome: RunOutcome,
}

impl<'a, P: Provisioner, C: Converger, V: Verifier, J: Journal> LifecycleRunner<'a, P, C, V, J> {
    /// A runner that starts from `state`, with keep mode as the state says
    /// and plain output.
    pub fn new(
        configuration: &'a Config,
        state: RunState,
        provisioner: &'a P,
        converger: &'a C,
        verifier: &'a V,
        journal: J,
    ) -> (r: Self)
        ensures
            r.state == state,
            r.configuration == configuration,
            !r.styled_output,
            r.outcome == (RunOutcome { verifier_failures: 0, execution_errors: 0 }),
    {
        let keep_mode = KeepMode::new(state.keep);
        LifecycleRunner {
            configuration,
            state,
            keep_mode,
            provisioner,
            converger,
            verifier,
            journal,
            styled_output: false,
            outcome: RunOutcome { verifier_failures: 0, execution_errors: 0 },
        }
    }

    /// The same runner, with styled output as given.
    pub fn with_styled_output(self, enabled: bool) -> (r: Self)
        ensures
            r.styled_output == enabled,
            r.state == self.state,
            r.configuration == self.configuration,
            r.outcome == self.outcome,
    {
        let mut runner = self;
        runner.styled_output = enabled;
        runner
    }

    /// The same runner, with the given keep policy.
    pub fn with_keep_mode(self, keep_mode: KeepMode) -> (r: Self)
        ensures
            r.keep_mode == keep_mode,
            r.state == self.state,
            r.configuration == self.configuration,
            r.outcome == self.outcome,
            r.styled_output == self.styled_output,
    {
        let mut runner = self;
        runner.keep_mode = keep_mode;
        runner
    }

    /// Saves the state, with the keep policy of this moment.
    fn persist(&mut self) -> (r: Result<(), LifecycleError>)
        ensures
            failures_counted(
                old(self).outcome.verifier_failures,
                old(self).state,
                final(self).state,
                final(self).outcome.verifier_failures,
            ),
            r matches Err(e) ==> e is State,
            same_scenarios(old(self).state, final(self).state),
            final(self).state.scenarios@ == old(self).state.scenarios@,
            final(self).state.primary_error == old(self).state.primary_error,
            final(self).state.cleanup_errors@ == old(self).state.cleanup_errors@,
            final(self).state.run_id == old(self).state.run_id,
            final(self).outcome == old(self).outcome,
            final(self).configuration == old(self).configuration,
            final(self).styled_output == old(self).styled_output,
    {
        let keep = self.keep_mode.enabled();
        self.state.set_keep(keep);
        match self.journal.save(&self.state) {
            Ok(()) => Ok(()),
            Err(e) => Err(LifecycleError::State(e)),
        }
    }

    /// Writes one output line.
    fn write(&mut self, line: &str) -> (r: Result<(), LifecycleError>)
        ensures
            failures_counted(
                old(self).outcome.verifier_failures,
                old(self).state,
                final(self).state,
                final(self).outcome.verifier_failures,
            ),
            r matches Err(e) ==> e is Output,
            final(self).state == old(self).state,
            final(self).outcome == old(self).outcome,
            final(self).configuration == old(self).configuration,
            final(self).styled_output == old(self).styled_output,
    {
        match self.journal.write_line(line) {
            Ok(()) => Ok(()),
            Err(e) => Err(LifecycleError::Output(e)),
        }
    }

    /// Records the result of a phase, saves the state and reports the
    /// result.  The result is recorded even when saving or reporting fails.
    fn complete(&mut self, path: &str, phase: LifecyclePhase, status: PhaseStatus) -> (r: Result<
        (),
        LifecycleError,
    >)
        requires
            old(self).state.wf(),
            old(self).state.entered(path@),
            is_result(status),
        ensures
            failures_counted(
                old(self).outcome.verifier_failures,
                old(self).state,
                final(self).state,
                final(self).outcome.verifier_failures,
            ),
            final(self).state.scenario(path@)->0.test_results == old(self).state.scenario(
                path@,
            )->0.test_results,
            changes_only(old(self).state, final(self).state, path@),
            final(self).state.scenario(path@)->0.resources == old(self).state.scenario(
                path@,
            )->0.resources,
            final(self).state.scenario(path@)->0.phases.at(phase) matches Some(s) && s.status
                == status,
            forall|q: LifecyclePhase|
                q != phase ==> #[trigger] final(self).state.scenario(path@)->0.phases.at(q)
                    == old(self).state.scenario(path@)->0.phases.at(q),
            final(self).state.primary_error == old(self).state.primary_error,
            final(self).state.cleanup_errors@ == old(self).state.cleanup_errors@,
            final(self).outcome == old(self).outcome,
            final(self).configuration == old(self).configuration,
            final(self).styled_output == old(self).styled_output,
    {
        self.state.complete_phase(path, phase, status);
        let ghost recorded = self.state;
        let saved = self.persist();
        proof {
            lemma_then_same(old(self).state, recorded, self.state, path@);
        }
        match saved {
            Ok(()) => {},
            Err(e) => {
                return Err(e);
            },
        }
        let line = match self.state.find(path) {
            Some(k) => phase_result_line(
                path,
                phase,
                status,
                Some(&self.state.scenarios[k]),
                self.styled_output,
            ),
            None => phase_result_line(path, phase, status, None, self.styled_output),
        };
        self.write(line.as_str())
    }

    /// Records a phase as skipped.
    fn skip(&mut self, path: &str, phase: LifecyclePhase) -> (r: Result<(), LifecycleError>)
        requires
            old(self).state.wf(),
            old(self).state.entered(path@),
        ensures
            failures_counted(
                old(self).outcome.verifier_failures,
                old(self).state,
                final(self).state,
                final(self).outcome.verifier_failures,
            ),
            final(self).state.scenario(path@)->0.test_results == old(self).state.scenario(
                path@,
            )->0.test_results,
            changes_only(old(self).state, final(self).state, path@),
            final(self).state.scenario(path@)->0.resources == old(self).state.scenario(
                path@,
            )->0.resources,
            final(self).state.scenario(path@)->0.phases.at(phase) matches Some(s) && s.status
                == PhaseStatus::Skipped,
            forall|q: LifecyclePhase|
                q != phase ==> #[trigger] final(self).state.scenario(path@)->0.phases.at(q)
                    == old(self).state.scenario(path@)->0.phases.at(q),
            final(self).state.primary_error == old(self).state.primary_error,
            final(self).state.cleanup_errors@ == old(self).state.cleanup_errors@,
            final(self).outcome == old(self).outcome,
            final(self).configuration == old(self).configuration,
            final(self).styled_output == old(self).styled_output,
    {
        self.complete(path, phase, PhaseStatus::Skipped)
    }

    /// Records a phase as running and saves the state.
    fn persist_or_record(&mut self, path: &str, phase: LifecyclePhase) -> (r: Result<
        (),
        LifecycleError,
    >)
        requires
            old(self).state.wf(),
            old(self).state.entered(path@),
        ensures
            failures_counted(
                old(self).outcome.verifier_failures,
                old(self).state,
                final(self).state,
                final(self).outcome.verifier_failures,
            ),
            final(self).state.scenario(path@)->0.test_results == old(self).state.scenario(
                path@,
            )->0.test_results,
            changes_only(old(self).state, final(self).state, path@),
            final(self).state.scenario(path@)->0.resources == old(self).state.scenario(
                path@,
            )->0.resources,
            forall|q: LifecyclePhase|
                q != phase ==> #[trigger] final(self).state.scenario(path@)->0.phases.at(q)
                    == old(self).state.scenario(path@)->0.phases.at(q),
            final(self).state.scenario(path@)->0.phases.at(phase) matches Some(st) && st.status
                == PhaseStatus::Running,
            final(self).state.primary_error == old(self).state.primary_error,
            final(self).state.cleanup_errors@ == old(self).state.cleanup_errors@,
            final(self).outcome == old(self).outcome,
            final(self).configuration == old(self).configuration,
            final(self).styled_output == old(self).styled_output,
    {
        self.state.mark_phase_running(path, phase);
        let ghost recorded = self.state;
        let saved = self.persist();
        assert(self.state.scenario(path@) == recorded.scenario(path@));
        proof {
            lemma_then_same(old(self).state, recorded, self.state, path@);
        }
        saved
    }

    /// Reports that a phase is running.
    fn write_phase_running(&mut self, path: &str, phase: LifecyclePhase) -> (r: Result<
        (),
        LifecycleError,
    >)
        ensures
            failures_counted(
                old(self).outcome.verifier_failures,
                old(self).state,
                final(self).state,
                final(self).outcome.verifier_failures,
            ),
            r matches Err(e) ==> e is Output,
            final(self).state == old(self).state,
            final(self).outcome == old(self).outcome,
            final(self).configuration == old(self).configuration,
            final(self).styled_output == old(self).styled_output,
    {
        let line = phase_running_line(path, phase);
        self.write(line.as_str())
    }

    /// Records an execution error of a phase: the first one of the run is
    /// its primary error; a cleanup error after it is a cleanup error.  The
    /// phase is recorded as failed.
    fn execution_error(&mut self, path: &str, phase: LifecyclePhase, message: &str)
        requires
            old(self).state.wf(),
            old(self).state.entered(path@),
        ensures
            failures_counted(
                old(self).outcome.verifier_failures,
                old(self).state,
                final(self).state,
                final(self).outcome.verifier_failures,
            ),
            final(self).state.scenario(path@)->0.test_results == old(self).state.scenario(
                path@,
            )->0.test_results,
            changes_only(old(self).state, final(self).state, path@),
            final(self).state.scenario(path@)->0.resources == old(self).state.scenario(
                path@,
            )->0.resources,
            final(self).state.scenario(path@)->0.phases.at(phase) matches Some(s) && s.status
                == PhaseStatus::Error,
            forall|q: LifecyclePhase|
                q != phase ==> #[trigger] final(self).state.scenario(path@)->0.phases.at(q)
                    == old(self).state.scenario(path@)->0.phases.at(q),
            final(self).state.primary_error is Some,
            old(self).state.primary_error is Some ==> final(self).state.primary_error == old(
                self,
            ).state.primary_error,
            final(self).outcome == old(self).outcome,
            final(self).configuration == old(self).configuration,
            final(self).styled_output == old(self).styled_output,
    {
        let record = ErrorRecord::new(path, phase, message);
        if phase == LifecyclePhase::Cleanup && self.state.primary_error.is_some() {
            self.state.record_cleanup_error(record);
        } else {
            self.state.record_primary_error(record);
        }
        let ghost recorded = self.state;
        assert(changes_only(old(self).state, recorded, path@));
        let _ = self.complete(path, phase, PhaseStatus::Error);
        proof {
            lemma_changes_trans(old(self).state, recorded, self.state, path@);
        }
    }
}


/// The inventory view resource of a scenario: where its file is, and where
/// it was first generated.
pub fn view_resource(existing: Option<&Resource>, scenario_path: &str, phase: LifecyclePhase, file: &str) -> (r: Resource)
    ensures
        r.exists,
        r.id@ == "ansible_inventory"@,
        r.resource_type@ == "view.ansible.inventory"@,
        r.attributes@.len() == 1,
        r.attributes@[0].name@ == "path"@,
        r.attributes@[0].value matches Value::String(t) && t@ == file@,
{
    let created = match existing {
        Some(v) => ResourceLocation { scenario_path: v.created.scenario_path.clone(), phase: v.created.phase },
        None => ResourceLocation { scenario_path: owned(scenario_path), phase },
    };
    let mut attributes: Vec<Attribute> = Vec::new();
    attributes.push(Attribute { name: owned("path"), value: Value::String(owned(file)) });
    Resource {
        id: owned("ansible_inventory"),
        resource_type: owned("view.ansible.inventory"),
        exists: true,
        created,
        destroyed: None,
        attributes,
        relationships: Vec::new(),
        sensitive_attributes: Vec::new(),
    }
}

impl<'a, P: Provisioner, C: Converger, V: Verifier, J: Journal> LifecycleRunner<'a, P, C, V, J> {
    /// Writes the runtime inventory view of a scenario when its visible
    /// resources bind hosts, and records where it is.
    fn write_view(&mut self, path: &str, phase: LifecyclePhase) -> (r: Result<Option<String>, String>)
        requires
            old(self).state.wf(),
            old(self).state.entered(path@),
        ensures
            failures_counted(
                old(self).outcome.verifier_failures,
                old(self).state,
                final(self).state,
                final(self).outcome.verifier_failures,
            ),
            final(self).state.scenario(path@)->0.test_results == old(self).state.scenario(
                path@,
            )->0.test_results,
            host_names(visible(old(self).state, path@)) is None ==> r is Err,
            host_names(visible(old(self).state, path@)) == Some(Seq::<Seq<char>>::empty()) ==> r
                == Ok::<Option<String>, String>(None),
            host_names(visible(old(self).state, path@)) matches Some(n) && n.len() > 0 ==> !(r
                matches Ok(None)),
            !(r matches Ok(Some(_))) ==> final(self).state == old(self).state,
            r matches Ok(Some(f)) ==> (final(self).state.scenario(path@)->0.inventory_view matches Some(
                v,
            ) && v.exists && v.id@ == "ansible_inventory"@ && v.attributes@.len() == 1
                && v.attributes@[0].name@ == "path"@ && (v.attributes@[0].value matches Value::String(
                t,
            ) && t@ == f@)),
            local(old(self).state, final(self).state, path@),
            final(self).state.scenario(path@)->0.phases == old(self).state.scenario(path@)->0.phases,
            final(self).state.cleanup_errors@ == old(self).state.cleanup_errors@,
            final(self).state.primary_error == old(self).state.primary_error,
            final(self).outcome == old(self).outcome,
            final(self).configuration == old(self).configuration,
            final(self).styled_output == old(self).styled_output,
    {
        let bound = match hosts(&self.state, path) {
            Ok(h) => h,
            Err(e) => {
                return Err(e);
            },
        };
        if bound.len() == 0 {
            proof {
                assert(names_of(bound@) =~= Seq::<Seq<char>>::empty());
            }
            return Ok(None);
        }
        proof {
            assert(names_of(bound@).len() == bound@.len());
        }
        let document = inventory_document(bound);
        let file = match self.journal.write_inventory_view(path, &document) {
            Ok(f) => f,
            Err(e) => {
                return Err(e);
            },
        };
        let k = self.state.find(path).unwrap();
        let view = view_resource(
            match &self.state.scenarios[k].inventory_view {
                Some(v) => Some(v),
                None => None,
            },
            path,
            phase,
            file.as_str(),
        );
        self.state.set_inventory_view(path, view);
        proof {
            assert(names_of(bound@).len() == bound@.len());
        }
        Ok(Some(file))
    }

    /// Runs a converger phase of a scenario, or records it as skipped when
    /// the scenario does not declare it.  Returns whether it failed.
    fn run_converger_phase(&mut self, scenario: &Scenario, path: &str, phase: LifecyclePhase) -> (r: bool)
        requires
            old(self).state.wf(),
            old(self).state.entered(path@),
            phase == LifecyclePhase::Prepare || phase == LifecyclePhase::Converge || phase
                == LifecyclePhase::Idempotence || phase == LifecyclePhase::Cleanup,
        ensures
            failures_counted(
                old(self).outcome.verifier_failures,
                old(self).state,
                final(self).state,
                final(self).outcome.verifier_failures,
            ),
            local(old(self).state, final(self).state, path@),
            phases_kept_but(old(self).state, final(self).state, path@, phase),
            final(self).state.scenario(path@)->0.phases.at(phase) is Some,
            !declares(*scenario, configured_of(phase)) ==> (final(self).state.scenario(
                path@,
            )->0.phases.at(phase) matches Some(st) && st.status == PhaseStatus::Skipped),
            declares(*scenario, configured_of(phase)) ==> (final(self).state.scenario(
                path@,
            )->0.phases.at(phase) matches Some(st) && st.status != PhaseStatus::Skipped),
            !r ==> settled(final(self).state.scenario(path@)->0, phase),
            declares(*scenario, configured_of(phase)) && !r ==> (final(self).state.scenario(
                path@,
            )->0.phases.at(phase) matches Some(st) && st.status == PhaseStatus::Pass),
            (final(self).state.scenario(path@)->0.phases.at(phase) matches Some(st) && st.status
                == PhaseStatus::Error) ==> r && final(self).state.primary_error is Some,
            declares(*scenario, configured_of(phase)) && runs_playbook(*scenario, configured_of(phase))
                && host_names(visible(old(self).state, path@)) is None ==> r && (final(self).state.scenario(
                path@,
            )->0.phases.at(phase) matches Some(st) ==> st.status != PhaseStatus::Pass),
            old(self).state.primary_error is Some ==> final(self).state.primary_error == old(
                self,
            ).state.primary_error,
            final(self).outcome.execution_errors == old(self).outcome.execution_errors,
            new_error(old(self).state, final(self).state) ==> r,
            final(self).configuration == old(self).configuration,
            final(self).styled_output == old(self).styled_output,
    {
        let configured = configured_phase(phase).unwrap();
        if !scenario.has_phase(configured) {
            return self.skip(path, phase).is_err();
        }
        let ghost start = self.state;
        if self.persist_or_record(path, phase).is_err() {
            return true;
        }
        if self.write_phase_running(path, phase).is_err() {
            return true;
        }
        let definition = scenario.phase(configured).unwrap();
        let ghost before_view = self.state;
        proof {
            let segs = crate::selector::segments(path@);
            assert(before_view.entered(path@) == start.entered(path@));
            lemma_visible_same(start, before_view, path@, segs, segs.len() as int);
        }
        let inventory: Option<String> = if definition.ansible().is_some() {
            match self.write_view(path, phase) {
                Ok(inventory) => {
                    let ghost viewed = self.state;
                    let saved = self.persist();
                    proof {
                        lemma_then_same(before_view, viewed, self.state, path@);
                    }
                    match saved {
                        Ok(()) => {},
                        Err(e) => {
                            let message = view_save_failure(&e);
                            let ghost mid = self.state;
                            self.execution_error(path, phase, message.as_str());
                            proof {
                                lemma_changes_trans(start, before_view, mid, path@);
                                lemma_changes_trans(start, mid, self.state, path@);
                            }
                            return true;
                        },
                    }
                    inventory
                },
                Err(error) => {
                    let ghost mid = self.state;
                    self.execution_error(path, phase, error.as_str());
                    proof {
                        lemma_changes_trans(start, before_view, mid, path@);
                        lemma_changes_trans(start, mid, self.state, path@);
                    }
                    return true;
                },
            }
        } else {
            None
        };
        let ghost before_run = self.state;
        proof {
            lemma_changes_trans(start, before_view, before_run, path@);
        }
        let outcome = {
            let resources = self.state.visible_resources(path);
            let view: Option<&str> = match &inventory {
                Some(f) => Some(f.as_str()),
                None => None,
            };
            self.converger.run(path, phase, definition, view, &resources)
        };
        let ghost before_finish = self.state;
        let failed = self.finish_phase(path, phase, outcome);
        proof {
            lemma_local_trans(start, before_finish, self.state, path@);
        }
        failed
    }

    /// Records what the converger answered for a phase: it passes, or it
    /// fails with an execution error.  Returns whether it failed or its
    /// result could not be saved or reported.
    fn finish_phase(&mut self, path: &str, phase: LifecyclePhase, outcome: Result<(), ConvergerError>) -> (r:
        bool)
        requires
            old(self).state.wf(),
            old(self).state.entered(path@),
            phase == LifecyclePhase::Prepare || phase == LifecyclePhase::Converge || phase
                == LifecyclePhase::Idempotence || phase == LifecyclePhase::Cleanup,
        ensures
            failures_counted(
                old(self).outcome.verifier_failures,
                old(self).state,
                final(self).state,
                final(self).outcome.verifier_failures,
            ),
            local(old(self).state, final(self).state, path@),
            phases_kept_but(old(self).state, final(self).state, path@, phase),
            old(self).state.primary_error is Some ==> final(self).state.primary_error == old(
                self,
            ).state.primary_error,
            final(self).outcome.execution_errors == old(self).outcome.execution_errors,
            new_error(old(self).state, final(self).state) ==> r,
            final(self).configuration == old(self).configuration,
            final(self).styled_output == old(self).styled_output,
            outcome is Ok ==> (final(self).state.scenario(path@)->0.phases.at(phase) matches Some(st)
                && st.status == PhaseStatus::Pass) && final(self).state.primary_error == old(
                self,
            ).state.primary_error,
            outcome is Err ==> r && (final(self).state.scenario(path@)->0.phases.at(phase) matches Some(
                st,
            ) && st.status == PhaseStatus::Error) && final(self).state.primary_error is Some,
    {
        match outcome {
            Ok(()) => self.complete(path, phase, PhaseStatus::Pass).is_err(),
            Err(error) => {
                self.execution_error(path, phase, error.0.as_str());
                true
            },
        }
    }
}


impl<'a, P: Provisioner, C: Converger, V: Verifier, J: Journal> LifecycleRunner<'a, P, C, V, J> {
    /// Runs the named tests of a scenario in order; the first test that
    /// cannot run, or whose verifier reports an error, stops the rest.  A
    /// failed test counts as a verifier failure and does not stop the rest.
    /// Returns whether verification failed.
    fn verify_tests(&mut self, path: &str, scenario: &Scenario) -> (r: bool)
        requires
            old(self).state.wf(),
            old(self).state.entered(path@),
        ensures
            failures_counted(
                old(self).outcome.verifier_failures,
                old(self).state,
                final(self).state,
                final(self).outcome.verifier_failures,
            ),
            local(old(self).state, final(self).state, path@),
            phases_kept_but(old(self).state, final(self).state, path@, LifecyclePhase::Verify),
            final(self).state.scenario(path@)->0.phases.at(LifecyclePhase::Verify) is Some,
            !r ==> (final(self).state.scenario(path@)->0.phases.at(LifecyclePhase::Verify) matches Some(
                st,
            ) && st.status == PhaseStatus::Pass),
            !r ==> final(self).state.scenario(path@)->0.test_results.len() == old(self).state.scenario(
                path@,
            )->0.test_results.len() + scenario.tests.entries@.len() && final(self).state.scenario(
                path@,
            )->0.test_results.take(old(self).state.scenario(path@)->0.test_results.len() as int)
                == old(self).state.scenario(path@)->0.test_results && results_named(
                final(self).state.scenario(path@)->0.test_results.skip(
                    old(self).state.scenario(path@)->0.test_results.len() as int,
                ),
                scenario.tests.entries@,
            ),
            final(self).state.scenario(path@)->0.test_results.len() >= old(self).state.scenario(
                path@,
            )->0.test_results.len(),
            final(self).state.scenario(path@)->0.test_results.take(
                old(self).state.scenario(path@)->0.test_results.len() as int,
            ) == old(self).state.scenario(path@)->0.test_results,
            new_results(old(self).state, final(self).state, path@).len() <= scenario.tests.entries@.len(),
            results_named(
                new_results(old(self).state, final(self).state, path@),
                scenario.tests.entries@.take(new_results(old(self).state, final(self).state, path@).len() as int),
            ),
            forall|j: int|
                0 <= j < new_results(old(self).state, final(self).state, path@).len() - 1 ==> (#[trigger] new_results(
                    old(self).state,
                    final(self).state,
                    path@,
                )[j]).status != VerifierStatus::Error,
            final(self).outcome.verifier_failures == saturating_plus(
                old(self).outcome.verifier_failures,
                fail_count(new_results(old(self).state, final(self).state, path@)),
            ),
            final(self).outcome.execution_errors == old(self).outcome.execution_errors,
            old(self).state.primary_error is Some ==> final(self).state.primary_error == old(
                self,
            ).state.primary_error,
            final(self).outcome.execution_errors == old(self).outcome.execution_errors,
            new_error(old(self).state, final(self).state) ==> r,
            final(self).configuration == old(self).configuration,
            final(self).styled_output == old(self).styled_output,
    {
        let ghost start = self.state;
        if self.persist_or_record(path, LifecyclePhase::Verify).is_err() {
            return true;
        }
        if self.write_phase_running(path, LifecyclePhase::Verify).is_err() {
            return true;
        }
        let tests = &scenario.tests.entries;
        let ghost start_results = start.scenario(path@)->0.test_results;
        let mut i: usize = 0;
        assert(self.state.scenario(path@)->0.test_results.skip(start_results.len() as int) =~= seq![]);
        assert(self.state.scenario(path@)->0.test_results.take(start_results.len() as int) =~= start_results);
        while i < tests.len()
            invariant
                start == old(self).state,
                start.wf(),
                start.entered(path@),
                self.state.wf(),
                self.state.entered(path@),
                local(start, self.state, path@),
                phases_kept_but(start, self.state, path@, LifecyclePhase::Verify),
                self.state.scenario(path@)->0.phases.at(LifecyclePhase::Verify) is Some,
                start.primary_error is Some ==> self.state.primary_error == start.primary_error,
                start.primary_error is None ==> self.state.primary_error is None,
                self.state.cleanup_errors@.len() == start.cleanup_errors@.len(),
                failures_counted(
                    old(self).outcome.verifier_failures,
                    start,
                    self.state,
                    self.outcome.verifier_failures,
                ),
                self.configuration == old(self).configuration,
                self.styled_output == old(self).styled_output,
                i <= tests@.len(),
                *tests == scenario.tests.entries,
                start_results == start.scenario(path@)->0.test_results,
                self.state.scenario(path@)->0.test_results.len() == start_results.len() + i,
                self.state.scenario(path@)->0.test_results.take(start_results.len() as int) == start_results,
                results_named(self.state.scenario(path@)->0.test_results.skip(start_results.len() as int), tests@.take(i as int)),
                forall|j: int|
                    0 <= j < i ==> (#[trigger] self.state.scenario(path@)->0.test_results.skip(
                        start_results.len() as int,
                    )[j]).status != VerifierStatus::Error,
                self.outcome.verifier_failures == saturating_plus(
                    old(self).outcome.verifier_failures,
                    fail_count(self.state.scenario(path@)->0.test_results.skip(start_results.len() as int)),
                ),
                self.outcome.execution_errors == old(self).outcome.execution_errors,
            decreases tests.len() - i,
        {
            let named = &tests[i];
            let ghost before_view = self.state;
            let inventory: Result<Option<String>, String> = if named.test.pytest.is_some()
                || named.test.ansible.is_some() {
                match self.write_view(path, LifecyclePhase::Verify) {
                    Ok(inventory) => {
                        let ghost viewed = self.state;
                        let saved = self.persist();
                        proof {
                            lemma_then_same(before_view, viewed, self.state, path@);
                        }
                        match saved {
                            Ok(()) => Ok(inventory),
                            Err(e) => Err(view_save_failure(&e)),
                        }
                    },
                    Err(e) => Err(e),
                }
            } else {
                Ok(None)
            };
            proof {
                lemma_local_trans(start, before_view, self.state, path@);
            }
            let result = match inventory {
                Ok(inventory) => {
                    let resources = self.state.visible_resources(path);
                    let view: Option<&str> = match &inventory {
                        Some(f) => Some(f.as_str()),
                        None => None,
                    };
                    self.verifier.verify(path, named.name.as_str(), &named.test, view, &resources)
                },
                Err(e) => Err(VerifierError(e)),
            };
            let ghost before_result = self.state;
            let stop = self.record_test(path, named.name.as_str(), result);
            proof {
                lemma_local_trans(start, before_result, self.state, path@);
                assert(self.state.scenario(path@)->0.test_results == before_result.scenario(path@)->0.test_results.push(
                    self.state.scenario(path@)->0.test_results.last(),
                ));
                assert(self.state.scenario(path@)->0.test_results.skip(start_results.len() as int) =~= before_result.scenario(
                    path@,
                )->0.test_results.skip(start_results.len() as int).push(self.state.scenario(path@)->0.test_results.last()));
                let before_new = before_result.scenario(path@)->0.test_results.skip(start_results.len() as int);
                let after_new = self.state.scenario(path@)->0.test_results.skip(start_results.len() as int);
                assert(after_new.drop_last() =~= before_new);
                assert(after_new.last() == self.state.scenario(path@)->0.test_results.last());
            }
            if stop {
                return true;
            }
            i = i + 1;
        }
        let ghost mid = self.state;
        let completed = self.complete(path, LifecyclePhase::Verify, PhaseStatus::Pass);
        proof {
            lemma_local_trans(start, mid, self.state, path@);
        }
        completed.is_err()
    }

    /// Records what the verifier answered for the test `name`: one result
    /// under its name, with the verifier's status, or an error status and
    /// the verifier's message when it could not run the test.  A failed test
    /// counts as a verifier failure; an error, or a test that could not run,
    /// is an execution error of the verify phase.  Returns whether the
    /// remaining tests must not run: after such an error, or when the
    /// result could not be saved.
    fn record_test(&mut self, path: &str, name: &str, outcome: Result<VerifierStatus, VerifierError>) -> (r:
        bool)
        requires
            old(self).state.wf(),
            old(self).state.entered(path@),
        ensures
            failures_counted(
                old(self).outcome.verifier_failures,
                old(self).state,
                final(self).state,
                final(self).outcome.verifier_failures,
            ),
            local(old(self).state, final(self).state, path@),
            phases_kept_but(old(self).state, final(self).state, path@, LifecyclePhase::Verify),
            old(self).state.primary_error is Some ==> final(self).state.primary_error == old(
                self,
            ).state.primary_error,
            final(self).outcome.execution_errors == old(self).outcome.execution_errors,
            new_error(old(self).state, final(self).state) ==> r,
            final(self).configuration == old(self).configuration,
            final(self).styled_output == old(self).styled_output,
            final(self).outcome.execution_errors == old(self).outcome.execution_errors,
            final(self).state.scenario(path@)->0.test_results.len() == old(self).state.scenario(
                path@,
            )->0.test_results.len() + 1,
            final(self).state.scenario(path@)->0.test_results.drop_last() == old(self).state.scenario(
                path@,
            )->0.test_results,
            final(self).state.scenario(path@)->0.test_results.last().name@ == name@,
            outcome matches Ok(st) ==> final(self).state.scenario(path@)->0.test_results.last().status
                == st && final(self).state.scenario(path@)->0.test_results.last().message is None,
            outcome matches Err(e) ==> final(self).state.scenario(path@)->0.test_results.last().status
                == VerifierStatus::Error && final(self).state.scenario(
                path@,
            )->0.test_results.last().message == Some(e.0),
            (outcome matches Ok(st) && st == VerifierStatus::Fail) ==> final(self).outcome.verifier_failures
                == if old(self).outcome.verifier_failures == usize::MAX {
                usize::MAX
            } else {
                (old(self).outcome.verifier_failures + 1) as usize
            },
            !(outcome matches Ok(st) && st == VerifierStatus::Fail) ==> final(self).outcome.verifier_failures
                == old(self).outcome.verifier_failures,
            outcome is Err ==> r && (final(self).state.scenario(path@)->0.phases.at(
                LifecyclePhase::Verify,
            ) matches Some(ph) && ph.status == PhaseStatus::Error) && final(self).state.primary_error is Some,
            (outcome matches Ok(st) && st == VerifierStatus::Error) ==> r,
            old(self).state.scenario(path@)->0.phases.at(LifecyclePhase::Verify) is Some
                ==> final(self).state.scenario(path@)->0.phases.at(LifecyclePhase::Verify) is Some,
            (outcome matches Ok(st) && st != VerifierStatus::Error) ==> final(self).state.scenario(
                path@,
            )->0.phases == old(self).state.scenario(path@)->0.phases && final(self).state.primary_error
                == old(self).state.primary_error,
    {
        let ghost start = self.state;
        match outcome {
            Ok(status) => {
                let verifier_error = status == VerifierStatus::Error;
                if status == VerifierStatus::Fail {
                    self.outcome.verifier_failures = self.outcome.verifier_failures.saturating_add(1);
                }
                self.state.record_suite_result(
                    path,
                    SuiteResult { name: owned(name), status, message: None, recorded_at: now() },
                );
                let ghost recorded = self.state;
                assert(local(start, recorded, path@));
                let saved = self.persist();
                proof {
                    lemma_then_same(start, recorded, self.state, path@);
                    assert(self.state.scenario(path@) == recorded.scenario(path@));
                }
                if saved.is_err() {
                    return true;
                }
                if verifier_error {
                    let mut message = owned("test `");
                    message.append(name);
                    message.append("` verifier reported an execution error");
                    let ghost mid = self.state;
                    self.execution_error(path, LifecyclePhase::Verify, message.as_str());
                    proof {
                        lemma_local_trans(start, mid, self.state, path@);
                    }
                    return true;
                }
                false
            },
            Err(error) => {
                let VerifierError(message) = error;
                self.state.record_suite_result(
                    path,
                    SuiteResult {
                        name: owned(name),
                        status: VerifierStatus::Error,
                        message: Some(message.clone()),
                        recorded_at: now(),
                    },
                );
                let ghost mid = self.state;
                assert(local(start, mid, path@));
                self.execution_error(path, LifecyclePhase::Verify, message.as_str());
                proof {
                    lemma_local_trans(start, mid, self.state, path@);
                }
                true
            },
        }
    }

    /// Destroys the resources of a scenario, unless `keep` (the keep policy
    /// read just before) is on or the scenario declares no destroy phase:
    /// then destroy is
    /// recorded as skipped.  A failed destruction is a cleanup error; it
    /// leaves the resources recorded as existing.  Returns whether it failed.
    fn destroy(&mut self, scenario: &Scenario, path: &str, keep: bool) -> (r: bool)
        requires
            old(self).state.wf(),
            old(self).state.entered(path@),
        ensures
            failures_counted(
                old(self).outcome.verifier_failures,
                old(self).state,
                final(self).state,
                final(self).outcome.verifier_failures,
            ),
            keep ==> (final(self).state.scenario(path@)->0.phases.at(LifecyclePhase::Destroy) matches Some(
                st,
            ) && st.status == PhaseStatus::Skipped),
            changes_only(old(self).state, final(self).state, path@),
            disposed(final(self).state.scenario(path@)->0),
            final(self).state.scenario(path@)->0.phases.at(LifecyclePhase::Destroy) is Some,
            !r ==> settled(final(self).state.scenario(path@)->0, LifecyclePhase::Destroy),
            phases_kept_but(old(self).state, final(self).state, path@, LifecyclePhase::Destroy),
            !declares(*scenario, ConfiguredPhase::Destroy) ==> (final(self).state.scenario(
                path@,
            )->0.phases.at(LifecyclePhase::Destroy) matches Some(st) && st.status
                == PhaseStatus::Skipped),
            (final(self).state.scenario(path@)->0.phases.at(LifecyclePhase::Destroy) matches Some(st)
                && st.status == PhaseStatus::Skipped) ==> final(self).state.scenario(path@)->0.resources
                == old(self).state.scenario(path@)->0.resources,
            (final(self).state.scenario(path@)->0.phases.at(LifecyclePhase::Destroy) matches Some(st)
                && st.status == PhaseStatus::Pass) ==> destroyed_all(
                old(self).state.scenario(path@)->0.resources,
                final(self).state.scenario(path@)->0.resources,
                path@,
            ),
            (final(self).state.scenario(path@)->0.phases.at(LifecyclePhase::Destroy) matches Some(st)
                && st.status == PhaseStatus::Error) ==> r && final(self).state.scenario(path@)->0.resources
                == old(self).state.scenario(path@)->0.resources && final(self).state.cleanup_errors@.len()
                == old(self).state.cleanup_errors@.len() + 1
                && final(self).state.cleanup_errors@.last().scenario_path@ == path@
                && final(self).state.cleanup_errors@.last().phase == LifecyclePhase::Destroy,
            final(self).outcome == old(self).outcome,
            new_error(old(self).state, final(self).state) ==> r,
            final(self).state.primary_error == old(self).state.primary_error,
            final(self).configuration == old(self).configuration,
            final(self).styled_output == old(self).styled_output,
    {
        let ghost start = self.state;
        if keep || !scenario.has_phase(ConfiguredPhase::Destroy) {
            return self.skip(path, LifecyclePhase::Destroy).is_err();
        }
        let persistence_error = self.persist_or_record(path, LifecyclePhase::Destroy).is_err();
        let ghost recorded = self.state;
        let _ = self.write_phase_running(path, LifecyclePhase::Destroy);
        let definition = scenario.phase(ConfiguredPhase::Destroy).unwrap();
        assert(self.state.entered(path@));
        let k = self.state.find(path).unwrap();
        let destroyed = self.provisioner.destroy(path, &self.state.scenarios[k].resources, definition);
        let ghost before_finish = self.state;
        let failed = self.finish_destroy(path, destroyed);
        proof {
            lemma_changes_trans(start, before_finish, self.state, path@);
        }
        persistence_error || failed
    }

    /// Records what the provisioner answered to a destroy request: on
    /// success the resources are recorded as destroyed and the phase as
    /// passed; on failure the error is kept as a cleanup error, the phase
    /// fails and the resources stay recorded as they were.  Returns whether
    /// destruction failed or its result could not be saved or reported.
    fn finish_destroy(&mut self, path: &str, outcome: Result<(), ProvisionerError>) -> (r: bool)
        requires
            old(self).state.wf(),
            old(self).state.entered(path@),
        ensures
            failures_counted(
                old(self).outcome.verifier_failures,
                old(self).state,
                final(self).state,
                final(self).outcome.verifier_failures,
            ),
            changes_only(old(self).state, final(self).state, path@),
            phases_kept_but(old(self).state, final(self).state, path@, LifecyclePhase::Destroy),
            final(self).state.primary_error == old(self).state.primary_error,
            final(self).outcome == old(self).outcome,
            final(self).configuration == old(self).configuration,
            final(self).styled_output == old(self).styled_output,
            outcome is Ok ==> (final(self).state.scenario(path@)->0.phases.at(LifecyclePhase::Destroy) matches Some(
                st,
            ) && st.status == PhaseStatus::Pass) && destroyed_all(
                old(self).state.scenario(path@)->0.resources,
                final(self).state.scenario(path@)->0.resources,
                path@,
            ) && final(self).state.cleanup_errors@ == old(self).state.cleanup_errors@,
            outcome matches Err(e) ==> r && (final(self).state.scenario(path@)->0.phases.at(
                LifecyclePhase::Destroy,
            ) matches Some(st) && st.status == PhaseStatus::Error) && final(self).state.scenario(
                path@,
            )->0.resources == old(self).state.scenario(path@)->0.resources
                && final(self).state.cleanup_errors@.len() == old(self).state.cleanup_errors@.len() + 1
                && final(self).state.cleanup_errors@.drop_last() == old(self).state.cleanup_errors@
                && final(self).state.cleanup_errors@.last().scenario_path@ == path@
                && final(self).state.cleanup_errors@.last().phase == LifecyclePhase::Destroy
                && final(self).state.cleanup_errors@.last().message@ == e.0@,
    {
        let ghost start = self.state;
        match outcome {
            Ok(()) => {
                self.state.mark_resources_destroyed(path);
                let ghost marked = self.state;
                let completion_error = self.complete(path, LifecyclePhase::Destroy, PhaseStatus::Pass).is_err();
                proof {
                    lemma_changes_trans(start, marked, self.state, path@);
                    assert(self.state.scenario(path@)->0.resources == marked.scenario(path@)->0.resources);
                }
                completion_error
            },
            Err(error) => {
                let record = ErrorRecord::new(path, LifecyclePhase::Destroy, error.0.as_str());
                self.state.record_cleanup_error(record);
                let ghost mid = self.state;
                assert(mid.cleanup_errors@.drop_last() =~= start.cleanup_errors@);
                let _ = self.complete(path, LifecyclePhase::Destroy, PhaseStatus::Error);
                proof {
                    lemma_changes_trans(start, mid, self.state, path@);
                }
                true
            },
        }
    }

    /// After a failure: cleanup and destruction are still attempted, and
    /// the scenario has failed.
    fn finish_after_failure(&mut self, scenario: &Scenario, path: &str) -> (r: bool)
        requires
            old(self).state.wf(),
            old(self).state.entered(path@),
        ensures
            failures_counted(
                old(self).outcome.verifier_failures,
                old(self).state,
                final(self).state,
                final(self).outcome.verifier_failures,
            ),
            r,
            torn_down(final(self).state.scenario(path@)->0),
            changes_only(old(self).state, final(self).state, path@),
            disposed(final(self).state.scenario(path@)->0),
            old(self).state.primary_error is Some ==> final(self).state.primary_error == old(
                self,
            ).state.primary_error,
            final(self).outcome.execution_errors == old(self).outcome.execution_errors,
            new_error(old(self).state, final(self).state) ==> r,
            final(self).configuration == old(self).configuration,
            final(self).styled_output == old(self).styled_output,
    {
        let ghost start = self.state;
        let _ = self.run_converger_phase(scenario, path, LifecyclePhase::Cleanup);
        let ghost mid = self.state;
        let keep = self.keep_mode.enabled();
        let _ = self.destroy(scenario, path, keep);
        proof {
            lemma_changes_trans(start, mid, self.state, path@);
        }
        true
    }
}


impl<'a, P: Provisioner, C: Converger, V: Verifier, J: Journal> LifecycleRunner<'a, P, C, V, J> {
    /// The create phase of a scenario: resources from the provisioner, or
    /// skipped when the scenario declares no create phase.
    fn run_create(&mut self, scenario: &Scenario, path: &str) -> (r: CreateStep)
        requires
            old(self).state.wf(),
            old(self).state.entered(path@),
        ensures
            failures_counted(
                old(self).outcome.verifier_failures,
                old(self).state,
                final(self).state,
                final(self).outcome.verifier_failures,
            ),
            changes_only(old(self).state, final(self).state, path@),
            phases_kept_but(old(self).state, final(self).state, path@, LifecyclePhase::Create),
            final(self).state.scenario(path@)->0.phases.at(LifecyclePhase::Create) is Some,
            !declares(*scenario, ConfiguredPhase::Create) ==> (final(self).state.scenario(
                path@,
            )->0.phases.at(LifecyclePhase::Create) matches Some(st) && st.status
                == PhaseStatus::Skipped),
            r is Proceed ==> settled(final(self).state.scenario(path@)->0, LifecyclePhase::Create),
            r is Abandon ==> (final(self).state.scenario(path@)->0.phases.at(LifecyclePhase::Create) matches Some(
                st,
            ) && (st.status == PhaseStatus::Running || st.status == PhaseStatus::Skipped)),
            r is Abandon ==> same_disposal(
                old(self).state.scenario(path@)->0,
                final(self).state.scenario(path@)->0,
            ),
            old(self).state.primary_error is Some ==> final(self).state.primary_error == old(
                self,
            ).state.primary_error,
            final(self).outcome.execution_errors == old(self).outcome.execution_errors,
            new_error(old(self).state, final(self).state) ==> !(r is Proceed),
            final(self).configuration == old(self).configuration,
            final(self).styled_output == old(self).styled_output,
    {
        let ghost start = self.state;
        if !scenario.has_phase(ConfiguredPhase::Create) {
            if self.skip(path, LifecyclePhase::Create).is_err() {
                return CreateStep::Abandon;
            }
            return CreateStep::Proceed;
        }
        if self.persist_or_record(path, LifecyclePhase::Create).is_err() {
            return CreateStep::Abandon;
        }
        if self.write_phase_running(path, LifecyclePhase::Create).is_err() {
            return CreateStep::Abandon;
        }
        let definition = scenario.phase(ConfiguredPhase::Create).unwrap();
        let ghost recorded = self.state;
        let created = self.provisioner.create(path, definition);
        let step = self.finish_create(path, created);
        proof {
            lemma_changes_trans(start, recorded, self.state, path@);
        }
        step
    }

    /// Records what the provisioner answered to a create request: on
    /// success its resources become the scenario's and the phase passes; on
    /// failure the phase fails with an execution error and the scenario
    /// unwinds.  A result that could not be saved or reported also unwinds.
    fn finish_create(&mut self, path: &str, outcome: Result<ResourceManifest, ProvisionerError>) -> (r:
        CreateStep)
        requires
            old(self).state.wf(),
            old(self).state.entered(path@),
        ensures
            failures_counted(
                old(self).outcome.verifier_failures,
                old(self).state,
                final(self).state,
                final(self).outcome.verifier_failures,
            ),
            changes_only(old(self).state, final(self).state, path@),
            phases_kept_but(old(self).state, final(self).state, path@, LifecyclePhase::Create),
            !(r is Abandon),
            old(self).state.primary_error is Some ==> final(self).state.primary_error == old(
                self,
            ).state.primary_error,
            final(self).outcome.execution_errors == old(self).outcome.execution_errors,
            new_error(old(self).state, final(self).state) ==> !(r is Proceed),
            final(self).configuration == old(self).configuration,
            final(self).styled_output == old(self).styled_output,
            outcome matches Ok(m) ==> final(self).state.scenario(path@)->0.resources == m.resources@
                && (final(self).state.scenario(path@)->0.phases.at(LifecyclePhase::Create) matches Some(
                st,
            ) && st.status == PhaseStatus::Pass) && final(self).state.primary_error == old(
                self,
            ).state.primary_error,
            outcome is Err ==> r is Unwind && final(self).state.scenario(path@)->0.resources == old(
                self,
            ).state.scenario(path@)->0.resources && (final(self).state.scenario(
                path@,
            )->0.phases.at(LifecyclePhase::Create) matches Some(st) && st.status
                == PhaseStatus::Error) && final(self).state.primary_error is Some,
    {
        let ghost start = self.state;
        match outcome {
            Ok(resources) => {
                let ghost manifest = resources.resources@;
                self.state.set_resources(path, resources);
                let ghost stored = self.state;
                let completed = self.complete(path, LifecyclePhase::Create, PhaseStatus::Pass);
                proof {
                    lemma_changes_trans(start, stored, self.state, path@);
                    assert(self.state.scenario(path@)->0.resources == stored.scenario(path@)->0.resources);
                }
                if completed.is_err() {
                    CreateStep::Unwind
                } else {
                    CreateStep::Proceed
                }
            },
            Err(error) => {
                self.execution_error(path, LifecyclePhase::Create, error.0.as_str());
                CreateStep::Unwind
            },
        }
    }

    /// The work of a scenario between create and cleanup: prepare, converge
    /// and idempotence, then either the selected child (while travelling to
    /// a selected scenario, which skips this scenario's verification), or
    /// verification and every child in order.  Returns whether it failed.
    fn run_body(
        &mut self,
        scenario: &Scenario,
        path: &str,
        selector: &Vec<String>,
        next: usize,
    ) -> (r: bool)
        requires
            old(self).state.wf(),
            old(self).state.entered(path@),
            strictly_below_disposed(old(self).state, path@),
        ensures
            failed_at(final(self).state.scenario(path@)->0, LifecyclePhase::Prepare) ==> untouched(
                old(self).state.scenario(path@)->0,
                final(self).state.scenario(path@)->0,
                seq![LifecyclePhase::Converge, LifecyclePhase::Idempotence, LifecyclePhase::Verify],
            ),
            failed_at(final(self).state.scenario(path@)->0, LifecyclePhase::Converge) ==> untouched(
                old(self).state.scenario(path@)->0,
                final(self).state.scenario(path@)->0,
                seq![LifecyclePhase::Idempotence, LifecyclePhase::Verify],
            ),
            failed_at(final(self).state.scenario(path@)->0, LifecyclePhase::Idempotence) ==> untouched(
                old(self).state.scenario(path@)->0,
                final(self).state.scenario(path@)->0,
                seq![LifecyclePhase::Verify],
            ),
            failures_counted(
                old(self).outcome.verifier_failures,
                old(self).state,
                final(self).state,
                final(self).outcome.verifier_failures,
            ),
            forall|q: Seq<char>| #[trigger] old(self).state.entered(q) ==> final(self).state.entered(q),
            travelling(segment_views(selector@), next as int) && path@ == ancestor_path(
                segment_views(selector@),
                next - 1,
            ) && !r ==> final(self).state.entered(selected_path(segment_views(selector@))),
            travelling(segment_views(selector@), next as int) && path@ == ancestor_path(
                segment_views(selector@),
                next - 1,
            ) ==> forall|q: Seq<char>|
                #[trigger] final(self).state.entered(q) && !old(self).state.entered(q) ==> toward(
                    q,
                    segment_views(selector@),
                ),
            within(old(self).state, final(self).state, path@),
            final(self).state.entered(path@),
            strictly_below_disposed(final(self).state, path@),
            !r ==> settled(final(self).state.scenario(path@)->0, LifecyclePhase::Prepare) && settled(
                final(self).state.scenario(path@)->0,
                LifecyclePhase::Converge,
            ) && settled(final(self).state.scenario(path@)->0, LifecyclePhase::Idempotence)
                && settled(final(self).state.scenario(path@)->0, LifecyclePhase::Verify),
            !r ==> forall|q: LifecyclePhase|
                q != LifecyclePhase::Prepare && q != LifecyclePhase::Converge && q
                    != LifecyclePhase::Idempotence && q != LifecyclePhase::Verify
                    ==> #[trigger] final(self).state.scenario(path@)->0.phases.at(q) == old(
                    self,
                ).state.scenario(path@)->0.phases.at(q),
            old(self).state.primary_error is Some ==> final(self).state.primary_error == old(
                self,
            ).state.primary_error,
            final(self).outcome.execution_errors == old(self).outcome.execution_errors,
            new_error(old(self).state, final(self).state) ==> r,
            final(self).configuration == old(self).configuration,
            final(self).styled_output == old(self).styled_output,
        decreases scenario, 0int,
    {
        let ghost start = self.state;
        if self.run_converger_phase(scenario, path, LifecyclePhase::Prepare) {
            proof {
                lemma_changes_within(start, self.state, path@);
                lemma_changes_keep_disposed(start, self.state, path@);
            }
            return true;
        }
        let ghost s1 = self.state;
        if self.run_converger_phase(scenario, path, LifecyclePhase::Converge) {
            proof {
                lemma_changes_trans(start, s1, self.state, path@);
                lemma_changes_within(start, self.state, path@);
                lemma_changes_keep_disposed(start, self.state, path@);
            }
            return true;
        }
        let ghost s2 = self.state;
        proof {
            lemma_changes_trans(start, s1, s2, path@);
        }
        if self.run_converger_phase(scenario, path, LifecyclePhase::Idempotence) {
            proof {
                lemma_changes_trans(start, s2, self.state, path@);
                lemma_changes_within(start, self.state, path@);
                lemma_changes_keep_disposed(start, self.state, path@);
            }
            return true;
        }
        let ghost s3 = self.state;
        proof {
            lemma_changes_trans(start, s2, s3, path@);
        }
        if next < selector.len() {
            let skipped = self.skip(path, LifecyclePhase::Verify);
            proof {
                lemma_changes_trans(start, s3, self.state, path@);
            }
            if skipped.is_err() {
                proof {
                    lemma_changes_within(start, self.state, path@);
                    lemma_changes_keep_disposed(start, self.state, path@);
                }
                return true;
            }
            let child_name = selector[next].as_str();
            match find_child(&scenario.scenarios, child_name) {
                None => {
                    let ghost s4 = self.state;
                    let mut message = owned("selected scenario `");
                    let missing = path_with_child(path, child_name);
                    message.append(missing.as_str());
                    message.append("` does not exist");
                    self.execution_error(path, LifecyclePhase::Create, message.as_str());
                    proof {
                        lemma_changes_trans(start, s4, self.state, path@);
                        lemma_changes_within(start, self.state, path@);
                        lemma_changes_keep_disposed(start, self.state, path@);
                    }
                    true
                },
                Some(k) => {
                    let child = &scenario.scenarios.entries[k].scenario;
                    let cpath = path_with_child(path, child_name);
                    let ghost s4 = self.state;
                    proof {
                        lemma_changes_keep_disposed(start, s4, path@);
                        assert forall|q: Seq<char>| same_or_below(q, cpath@) && #[trigger] s4.entered(q)
                            implies disposed(s4.scenario(q)->0) by {
                            lemma_below_child(q, path@, child_name@);
                        }
                        assert(decreases_to!(scenario => scenario.scenarios));
                        assert(decreases_to!(scenario => scenario.scenarios.entries));
                        assert(decreases_to!(scenario => scenario.scenarios.entries@[k as int]));
                        assert(decreases_to!(scenario => scenario.scenarios.entries@[k as int].scenario));
                    }
                    let failed = self.run_scenario(child, cpath.as_str(), Some(owned(path)), selector, next + 1);
                    proof {
                        self.lemma_after_child(start, s4, path@, cpath@, child_name@);
                        assert forall|q: Seq<char>| #[trigger] start.entered(q) implies self.state.entered(q) by {
                            assert(s4.entered(q));
                        }
                    }
                    failed
                },
            }
        } else {
            let mut had_error = if scenario.has_phase(ConfiguredPhase::Verify) {
                self.verify_tests(path, scenario)
            } else {
                self.skip(path, LifecyclePhase::Verify).is_err()
            };
            let ghost s4 = self.state;
            proof {
                lemma_changes_trans(start, s3, s4, path@);
                lemma_changes_within(start, s4, path@);
                lemma_changes_keep_disposed(start, s4, path@);
            }
            if !had_error {
                let children = &scenario.scenarios.entries;
                let mut i: usize = 0;
                while i < children.len()
                    invariant
                        start == old(self).state,
                        start.entered(path@),
                        self.state.wf(),
                        self.state.entered(path@),
                        within(start, self.state, path@),
                        strictly_below_disposed(self.state, path@),
                        self.state.scenario(path@) == s4.scenario(path@),
                        start.primary_error is Some ==> self.state.primary_error == start.primary_error,
                        new_error(start, self.state) ==> had_error,
                        forall|q: Seq<char>| #[trigger] start.entered(q) ==> self.state.entered(q),
                        failures_counted(
                            old(self).outcome.verifier_failures,
                            start,
                            self.state,
                            self.outcome.verifier_failures,
                        ),
                        self.outcome.execution_errors == old(self).outcome.execution_errors,
                        self.configuration == old(self).configuration,
                        self.styled_output == old(self).styled_output,
                        *children == scenario.scenarios.entries,
                        i <= children@.len(),
                    decreases children.len() - i,
                {
                    let child_name = children[i].name.as_str();
                    let child = &children[i].scenario;
                    let cpath = path_with_child(path, child_name);
                    let ghost s5 = self.state;
                    proof {
                        assert forall|q: Seq<char>| same_or_below(q, cpath@) && #[trigger] s5.entered(q)
                            implies disposed(s5.scenario(q)->0) by {
                            lemma_below_child(q, path@, child_name@);
                        }
                        assert(decreases_to!(scenario => scenario.scenarios));
                        assert(decreases_to!(scenario => scenario.scenarios.entries));
                        assert(decreases_to!(scenario => scenario.scenarios.entries@[i as int]));
                        assert(decreases_to!(scenario => scenario.scenarios.entries@[i as int].scenario));
                    }
                    let failed = self.run_scenario(child, cpath.as_str(), Some(owned(path)), selector, selector.len());
                    proof {
                        self.lemma_after_child(start, s5, path@, cpath@, child_name@);
                        assert forall|q: Seq<char>| #[trigger] start.entered(q) implies self.state.entered(q) by {
                            assert(s5.entered(q));
                        }
                    }
                    if failed {
                        had_error = true;
                        break;
                    }
                    i = i + 1;
                }
            }
            had_error
        }
    }

    /// What holds after a child at `cpath` ran from state `before`.
    proof fn lemma_after_child(
        &self,
        start: RunState,
        before: RunState,
        p: Seq<char>,
        cpath: Seq<char>,
        name: Seq<char>,
    )
        requires
            cpath == child_path(p, name),
            within(start, before, p),
            before.entered(p),
            strictly_below_disposed(before, p),
            within(before, self.state, cpath),
            below_disposed(self.state, cpath),
        ensures
            within(start, self.state, p),
            self.state.entered(p),
            strictly_below_disposed(self.state, p),
            self.state.scenario(p) == before.scenario(p),
    {
        assert(!same_or_below(p, cpath)) by {
            if same_or_below(p, cpath) {
                lemma_below_child(p, p, name);
            }
        }
        assert forall|q: Seq<char>| !same_or_below(q, p) implies #[trigger] self.state.entered(q)
            == start.entered(q) by {
            if same_or_below(q, cpath) {
                lemma_below_child(q, p, name);
            }
            assert(before.entered(q) == start.entered(q));
        }
        assert forall|q: Seq<char>| !same_or_below(q, p) implies #[trigger] self.state.scenario(q)
            == start.scenario(q) by {
            if same_or_below(q, cpath) {
                lemma_below_child(q, p, name);
            }
            assert(before.scenario(q) == start.scenario(q));
        }
        assert forall|q: Seq<char>|
            same_or_below(q, p) && q != p && #[trigger] self.state.entered(q) implies disposed(
            self.state.scenario(q)->0,
        ) by {
            if !same_or_below(q, cpath) {
                assert(before.entered(q));
                assert(self.state.scenario(q) == before.scenario(q));
            }
        }
        assert(self.state.entered(p) == before.entered(p));
    }

    /// Runs one scenario: its entrance line, its lifecycle, and its verdict
    /// line.  Returns whether it failed.
    fn run_scenario(
        &mut self,
        scenario: &Scenario,
        path: &str,
        parent_path: Option<String>,
        selector: &Vec<String>,
        next: usize,
    ) -> (r: bool)
        requires
            old(self).state.wf(),
            below_disposed(old(self).state, path@),
        ensures
            failures_counted(
                old(self).outcome.verifier_failures,
                old(self).state,
                final(self).state,
                final(self).outcome.verifier_failures,
            ),
            forall|q: Seq<char>| #[trigger] old(self).state.entered(q) ==> final(self).state.entered(q),
            travelling(segment_views(selector@), next as int) && path@ == ancestor_path(
                segment_views(selector@),
                next - 1,
            ) && !r ==> final(self).state.entered(selected_path(segment_views(selector@))),
            travelling(segment_views(selector@), next as int) && path@ == ancestor_path(
                segment_views(selector@),
                next - 1,
            ) ==> forall|q: Seq<char>|
                #[trigger] final(self).state.entered(q) && !old(self).state.entered(q) ==> toward(
                    q,
                    segment_views(selector@),
                ),
            within(old(self).state, final(self).state, path@),
            below_disposed(final(self).state, path@),
            !r ==> final(self).state.entered(path@) && settled(
                final(self).state.scenario(path@)->0,
                LifecyclePhase::Destroy,
            ),
            !r ==> forall|q: LifecyclePhase| #[trigger] settled(final(self).state.scenario(path@)->0, q),
            old(self).state.primary_error is Some ==> final(self).state.primary_error == old(
                self,
            ).state.primary_error,
            final(self).outcome.execution_errors == old(self).outcome.execution_errors,
            new_error(old(self).state, final(self).state) ==> r,
            final(self).configuration == old(self).configuration,
            final(self).styled_output == old(self).styled_output,
        decreases scenario, 2int,
    {
        let entrance = scenario_entrance(path, self.styled_output);
        if self.write(entrance.as_str()).is_err() {
            return true;
        }
        let had_error = self.run_scenario_inner(scenario, path, parent_path, selector, next);
        let line = scenario_verdict_line(&self.state, path, had_error, self.styled_output);
        if self.write(line.as_str()).is_err() {
            return true;
        }
        had_error
    }

    /// The lifecycle of one scenario: it is entered, created, worked on,
    /// cleaned up and destroyed.  Cleanup and destruction are attempted
    /// after every failure that follows creation.  Returns whether it
    /// failed.
    fn run_scenario_inner(
        &mut self,
        scenario: &Scenario,
        path: &str,
        parent_path: Option<String>,
        selector: &Vec<String>,
        next: usize,
    ) -> (r: bool)
        requires
            old(self).state.wf(),
            below_disposed(old(self).state, path@),
        ensures
            failures_counted(
                old(self).outcome.verifier_failures,
                old(self).state,
                final(self).state,
                final(self).outcome.verifier_failures,
            ),
            forall|q: Seq<char>| #[trigger] old(self).state.entered(q) ==> final(self).state.entered(q),
            travelling(segment_views(selector@), next as int) && path@ == ancestor_path(
                segment_views(selector@),
                next - 1,
            ) && !r ==> final(self).state.entered(selected_path(segment_views(selector@))),
            travelling(segment_views(selector@), next as int) && path@ == ancestor_path(
                segment_views(selector@),
                next - 1,
            ) ==> forall|q: Seq<char>|
                #[trigger] final(self).state.entered(q) && !old(self).state.entered(q) ==> toward(
                    q,
                    segment_views(selector@),
                ),
            within(old(self).state, final(self).state, path@),
            below_disposed(final(self).state, path@),
            final(self).state.entered(path@),
            torn_down(final(self).state.scenario(path@)->0) || create_abandoned(
                final(self).state.scenario(path@)->0,
            ),
            !r ==> final(self).state.entered(path@) && settled(
                final(self).state.scenario(path@)->0,
                LifecyclePhase::Destroy,
            ),
            !r ==> forall|q: LifecyclePhase| #[trigger] settled(final(self).state.scenario(path@)->0, q),
            old(self).state.primary_error is Some ==> final(self).state.primary_error == old(
                self,
            ).state.primary_error,
            final(self).outcome.execution_errors == old(self).outcome.execution_errors,
            new_error(old(self).state, final(self).state) ==> r,
            final(self).configuration == old(self).configuration,
            final(self).styled_output == old(self).styled_output,
        decreases scenario, 1int,
    {
        let ghost start = self.state;
        self.state.enter_scenario(path, parent_path);
        self.state.complete_phase(path, LifecyclePhase::Dependency, PhaseStatus::Skipped);
        let ghost entered = self.state;
        proof {
            assert(entered.scenario(path@)->0.resources == if start.entered(path@) {
                start.scenario(path@)->0.resources
            } else {
                seq![]
            });
            assert(disposed(entered.scenario(path@)->0));
            assert(within(start, entered, path@));
            assert forall|q: Seq<char>|
                same_or_below(q, path@) && q != path@ && #[trigger] entered.entered(q) implies disposed(
                entered.scenario(q)->0,
            ) by {
                assert(start.entered(q));
                assert(entered.scenario(q) == start.scenario(q));
            }
            let views = segment_views(selector@);
            if travelling(views, next as int) && path@ == ancestor_path(views, next - 1) {
                let target = ancestor_path(views, views.len() - 1);
                lemma_below_ancestor(target, views, next - 1, views.len() - 1);
                assert(toward(path@, views));
            }
        }
        match self.run_create(scenario, path) {
            CreateStep::Abandon => {
                proof {
                    lemma_changes_within(entered, self.state, path@);
                    lemma_within_trans(start, entered, self.state, path@);
                    lemma_changes_keep_disposed(entered, self.state, path@);
                    assert forall|q: Seq<char>| #[trigger] self.state.entered(q) && !start.entered(q) implies q == path@ by {
                        assert(entered.entered(q));
                    }
                }
                return true;
            },
            CreateStep::Unwind => {
                let ghost created = self.state;
                let failed = self.finish_after_failure(scenario, path);
                proof {
                    lemma_changes_trans(entered, created, self.state, path@);
                    lemma_changes_within(entered, self.state, path@);
                    lemma_within_trans(start, entered, self.state, path@);
                    lemma_changes_keep_disposed(entered, self.state, path@);
                    assert forall|q: Seq<char>| #[trigger] self.state.entered(q) && !start.entered(q) implies q == path@ by {
                        assert(entered.entered(q));
                    }
                }
                return failed;
            },
            CreateStep::Proceed => {},
        }
        let ghost created = self.state;
        proof {
            lemma_changes_within(entered, created, path@);
            lemma_within_trans(start, entered, created, path@);
            lemma_changes_keep_disposed(entered, created, path@);
        }
        let had_error = self.run_body(scenario, path, selector, next);
        let ghost worked = self.state;
        proof {
            lemma_within_trans(start, created, worked, path@);
        }
        let cleanup_error = self.run_converger_phase(scenario, path, LifecyclePhase::Cleanup);
        let ghost cleaned = self.state;
        let keep = self.keep_mode.enabled();
        let destroy_error = self.destroy(scenario, path, keep);
        proof {
            lemma_changes_trans(worked, cleaned, self.state, path@);
            lemma_changes_within(worked, self.state, path@);
            lemma_within_trans(start, worked, self.state, path@);
            lemma_changes_keep_disposed(worked, self.state, path@);
            assert forall|q: Seq<char>| #[trigger] start.entered(q) implies self.state.entered(q) by {
                assert(entered.entered(q));
                assert(created.entered(q));
                assert(worked.entered(q));
                assert(cleaned.entered(q));
            }
            assert forall|q: Seq<char>| #[trigger] self.state.entered(q) && !start.entered(q) implies q == path@
                || (worked.entered(q) && !created.entered(q)) by {
                assert(worked.entered(q));
                if q != path@ {
                    assert(entered.entered(q) == start.entered(q));
                    assert(created.entered(q) == entered.entered(q));
                }
            }
        }
        had_error || cleanup_error || destroy_error
    }
}


/// Whether a selector names a top-level scenario of `config` and has no
/// empty segment.
pub open spec fn selector_names_root(config: Config, selector: Seq<char>) -> bool {
    &&& crate::selector::selector_ok(selector)
    &&& exists|k: int|
        0 <= k < config.scenarios.entries@.len() && (#[trigger] config.scenarios.entries@[k]).name@
            == crate::selector::segments(selector)[0]
}

impl<'a, P: Provisioner, C: Converger, V: Verifier, J: Journal> LifecycleRunner<'a, P, C, V, J> {
    /// Runs every top-level scenario in order, or only the selected
    /// scenario subtree with the minimal chain of its ancestors.  After an
    /// execution error no further top-level scenario starts.  The state is
    /// saved before and after, and a summary line ends the output.
    ///
    /// Whatever the adapters and the journal do, every scenario the run
    /// entered is disposed of: its resources went through its destroy phase
    /// (destroyed, failed, or skipped by keep mode or for want of one).  The
    /// verifier failures counted are the failed tests recorded, and an
    /// execution error is counted once.
    ///
    /// A run starts from a fresh state (`RunState::new`), which holds no
    /// scenario and so meets both requirements.
    pub fn run(self, selector: Option<&str>) -> (r: Result<(RunOutcome, RunState), LifecycleError>)
        requires
            self.state.wf(),
            all_disposed(self.state),
        ensures
            r matches Ok((_, st)) ==> st.wf() && all_disposed(st) && st.run_id@ == self.state.run_id@,
            r matches Ok((_, st)) ==> (self.state.primary_error is Some ==> st.primary_error
                == self.state.primary_error),
            r matches Ok((o, st)) ==> (new_error(self.state, st) ==> o.execution_errors > 0),
            r matches Ok((o, st)) ==> failures_counted(
                self.outcome.verifier_failures,
                self.state,
                st,
                o.verifier_failures,
            ),
            r matches Ok((o, st)) ==> (selector is None ==> (forall|k: int|
                0 <= k < self.configuration.scenarios.entries@.len() ==> st.entered(
                    #[trigger] self.configuration.scenarios.entries@[k].name@,
                )) || o.execution_errors > 0),
            r matches Ok((o, st)) ==> (selector matches Some(sel) ==> st.entered(
                selected_path(crate::selector::segments(sel@)),
            ) || o.execution_errors > 0),
            r matches Ok((o, _)) ==> o.execution_errors == self.outcome.execution_errors
                || o.execution_errors == self.outcome.execution_errors + 1,
            r matches Err(LifecycleError::InvalidSelector(s)) ==> selector matches Some(sel) && s@
                == sel@ && !selector_names_root(*self.configuration, sel@),
            (selector matches Some(sel) && !selector_names_root(*self.configuration, sel@)) ==> (r matches Err(e)
                && (e is InvalidSelector || e is State)),
            r matches Ok((_, st)) ==> (selector matches Some(sel) ==> forall|q: Seq<char>|
                #[trigger] st.entered(q) && !self.state.entered(q) ==> toward(
                    q,
                    crate::selector::segments(sel@),
                )),
    {
        let mut runner = self;
        let ghost initial = runner.state;
        if let Err(e) = runner.persist() {
            return Err(e);
        }
        let ghost s0 = runner.state;
        assert forall|q: Seq<char>| #[trigger] s0.entered(q) implies disposed(s0.scenario(q)->0) by {
            assert(initial.entered(q));
        }
        let config = runner.configuration;
        let had_error = match selector {
            Some(sel) => {
                let segs = split_segments(sel);
                let ghost views = segs@.map_values(|x: String| x@);
                let mut j: usize = 0;
                while j < segs.len()
                    invariant
                        selector == Some(sel),
                        views == segs@.map_values(|x: String| x@),
                        views == crate::selector::segments(sel@),
                        j <= segs@.len(),
                        forall|m: int| 0 <= m < j ==> (#[trigger] views[m]).len() > 0,
                    decreases segs.len() - j,
                {
                    if segs[j].unicode_len() == 0 {
                        assert(crate::selector::segments(sel@)[j as int].len() == 0);
                        return Err(LifecycleError::InvalidSelector(owned(sel)));
                    }
                    j = j + 1;
                }
                assert(views.len() >= 1);
                match find_child(&config.scenarios, segs[0].as_str()) {
                    None => {
                        proof {
                            assert(views[0] == segs@[0]@);
                        }
                        return Err(LifecycleError::InvalidSelector(owned(sel)));
                    },
                    Some(k) => {
                        let root = &config.scenarios.entries[k].scenario;
                        let name = segs[0].as_str();
                        runner.run_scenario(root, name, None, &segs, 1)
                    },
                }
            },
            None => {
                let roots = &config.scenarios.entries;
                let empty: Vec<String> = Vec::new();
                let mut had_error = false;
                let mut i: usize = 0;
                while i < roots.len() && !had_error
                    invariant
                        runner.state.wf(),
                        all_disposed(runner.state),
                        runner.state.run_id@ == initial.run_id@,
                        initial.primary_error is Some ==> runner.state.primary_error
                            == initial.primary_error,
                        new_error(initial, runner.state) ==> had_error,
                        !had_error ==> forall|k: int|
                            0 <= k < i ==> runner.state.entered(#[trigger] roots@[k].name@),
                        runner.outcome.execution_errors == self.outcome.execution_errors,
                        failures_counted(
                            self.outcome.verifier_failures,
                            initial,
                            runner.state,
                            runner.outcome.verifier_failures,
                        ),
                        runner.configuration == config,
                        i <= roots@.len(),
                    decreases roots.len() - i,
                {
                    let ghost before = runner.state;
                    had_error = runner.run_scenario(&roots[i].scenario, roots[i].name.as_str(), None, &empty, 0);
                    proof {
                        if !had_error {
                            assert forall|k: int| 0 <= k < i + 1 implies runner.state.entered(
                                #[trigger] roots@[k].name@,
                            ) by {
                                if k < i {
                                    assert(before.entered(roots@[k].name@));
                                }
                            }
                        }
                    }
                    proof {
                        let name = roots@[i as int].name@;
                        assert forall|q: Seq<char>| #[trigger] runner.state.entered(q) implies disposed(
                            runner.state.scenario(q)->0,
                        ) by {
                            if !same_or_below(q, name) {
                                assert(before.entered(q));
                                assert(runner.state.scenario(q) == before.scenario(q));
                            }
                        }
                    }
                    i = i + 1;
                }
                had_error
            },
        };
        if had_error {
            runner.outcome.execution_errors = runner.outcome.execution_errors.saturating_add(1);
        }
        let ghost finished = runner.state;
        if let Err(e) = runner.persist() {
            return Err(e);
        }
        assert forall|q: Seq<char>| #[trigger] runner.state.entered(q) implies disposed(
            runner.state.scenario(q)->0,
        ) by {
            assert(finished.entered(q));
        }
        let summary = summary_line(&runner.state, &runner.outcome);
        if let Err(e) = runner.write(summary.as_str()) {
            return Err(e);
        }
        Ok((runner.outcome, runner.state))
    }
}

} // verus!

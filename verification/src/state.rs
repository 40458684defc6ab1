//! The durable record of one run: entered scenarios with their phase states,
//! test results, resources and errors.
use vstd::prelude::*;

use crate::paths::{join, parent_or_current, parent_or_dot, joined};
use crate::selector::{segments, split_segments};
use crate::text::{owned, str_eq};
use crate::value::Value;

verus! {

/// The state schema version this library writes and reads.
pub const STATE_SCHEMA_VERSION: u32 = 1;

/// The current time, in milliseconds since the Unix epoch, saturated to
/// `u64`.  Nothing is known of the value.
#[verifier::external_body]
pub(crate) fn now() -> (t: u64) {
    std::time::SystemTime::now().duration_since(std::time::UNIX_EPOCH).unwrap_or_default().as_millis().try_into().unwrap_or(
        u64::MAX,
    )
}

/// The default state file: `.cvd/state.json` in the configuration file's
/// directory.
pub fn default_state_path(configuration_path: &str) -> (r: String)
    ensures
        r@ == joined(joined(parent_or_current(configuration_path@), ".cvd"@), "state.json"@),
{
    let directory = default_state_directory(configuration_path);
    proof {
        reveal_strlit("state.json");
    }
    join(directory.as_str(), "state.json")
}

/// The default state directory: `.cvd` in the configuration file's
/// directory.
pub fn default_state_directory(configuration_path: &str) -> (r: String)
    ensures
        r@ == joined(parent_or_current(configuration_path@), ".cvd"@),
{
    let parent = parent_or_dot(configuration_path);
    proof {
        reveal_strlit(".cvd");
    }
    join(parent.as_str(), ".cvd")
}

/// A lifecycle phase, as recorded in state.
#[derive(Clone, Copy, Debug, PartialEq, Eq, Structural)]
pub enum LifecyclePhase {
    Dependency,
    Create,
    Prepare,
    Converge,
    Idempotence,
    Verify,
    Cleanup,
    Destroy,
}

/// The status of a phase: `Pending` and `Running` while it runs, then
/// `Skipped`, `Pass` or `Error`.
#[derive(Clone, Copy, Debug, PartialEq, Eq, Structural)]
pub enum PhaseStatus {
    Pending,
    Running,
    Skipped,
    Pass,
    Error,
}

/// Whether a status is a completed phase result.
pub open spec fn is_result(status: PhaseStatus) -> bool {
    status == PhaseStatus::Skipped || status == PhaseStatus::Pass || status == PhaseStatus::Error
}

/// The state of one phase, with its start and completion times.
#[derive(Clone, Copy, Debug, PartialEq, Eq, Structural)]
pub struct PhaseState {
    pub status: PhaseStatus,
    pub started_at: Option<u64>,
    pub completed_at: Option<u64>,
}

impl PhaseState {
    /// A phase that starts now.
    pub fn running() -> (r: PhaseState)
        ensures
            r.status == PhaseStatus::Running,
            r.started_at is Some,
            r.completed_at is None,
    {
        PhaseState { status: PhaseStatus::Running, started_at: Some(now()), completed_at: None }
    }

    /// A phase that completes now with `status`; it keeps `started_at`,
    /// or starts now when it never ran.
    pub fn completed(status: PhaseStatus, started_at: Option<u64>) -> (r: PhaseState)
        requires
            is_result(status),
        ensures
            r.status == status,
            started_at is Some ==> r.started_at == started_at,
            r.started_at is Some,
            r.completed_at is Some,
            started_at is None ==> r.started_at == r.completed_at,
    {
        let timestamp = now();
        let started = match started_at {
            Some(t) => Some(t),
            None => Some(timestamp),
        };
        PhaseState { status, started_at: started, completed_at: Some(timestamp) }
    }
}

/// The phase states of a scenario, one slot per lifecycle phase.
#[derive(Clone, Copy, Debug, PartialEq, Eq, Structural)]
pub struct PhaseTable {
    pub dependency: Option<PhaseState>,
    pub create: Option<PhaseState>,
    pub prepare: Option<PhaseState>,
    pub converge: Option<PhaseState>,
    pub idempotence: Option<PhaseState>,
    pub verify: Option<PhaseState>,
    pub cleanup: Option<PhaseState>,
    pub destroy: Option<PhaseState>,
}

impl PhaseTable {
    /// The state recorded for `phase`.
    pub open spec fn at(self, phase: LifecyclePhase) -> Option<PhaseState> {
        match phase {
            LifecyclePhase::Dependency => self.dependency,
            LifecyclePhase::Create => self.create,
            LifecyclePhase::Prepare => self.prepare,
            LifecyclePhase::Converge => self.converge,
            LifecyclePhase::Idempotence => self.idempotence,
            LifecyclePhase::Verify => self.verify,
            LifecyclePhase::Cleanup => self.cleanup,
            LifecyclePhase::Destroy => self.destroy,
        }
    }

    /// No phase recorded.
    pub fn empty() -> (r: PhaseTable)
        ensures
            r == PhaseTable::empty_spec(),
            forall|p: LifecyclePhase| r.at(p) is None,
    {
        PhaseTable {
            dependency: None,
            create: None,
            prepare: None,
            converge: None,
            idempotence: None,
            verify: None,
            cleanup: None,
            destroy: None,
        }
    }

    /// The state recorded for `phase`.
    pub fn get(&self, phase: LifecyclePhase) -> (r: Option<PhaseState>)
        ensures
            r == self.at(phase),
    {
        match phase {
            LifecyclePhase::Dependency => self.dependency,
            LifecyclePhase::Create => self.create,
            LifecyclePhase::Prepare => self.prepare,
            LifecyclePhase::Converge => self.converge,
            LifecyclePhase::Idempotence => self.idempotence,
            LifecyclePhase::Verify => self.verify,
            LifecyclePhase::Cleanup => self.cleanup,
            LifecyclePhase::Destroy => self.destroy,
        }
    }

    /// Records `state` for `phase`, leaving the other phases alone.
    pub fn set(&mut self, phase: LifecyclePhase, state: PhaseState)
        ensures
            final(self).at(phase) == Some(state),
            forall|q: LifecyclePhase| q != phase ==> final(self).at(q) == old(self).at(q),
    {
        match phase {
            LifecyclePhase::Dependency => self.dependency = Some(state),
            LifecyclePhase::Create => self.create = Some(state),
            LifecyclePhase::Prepare => self.prepare = Some(state),
            LifecyclePhase::Converge => self.converge = Some(state),
            LifecyclePhase::Idempotence => self.idempotence = Some(state),
            LifecyclePhase::Verify => self.verify = Some(state),
            LifecyclePhase::Cleanup => self.cleanup = Some(state),
            LifecyclePhase::Destroy => self.destroy = Some(state),
        }
    }

    /// Whether any recorded phase has passed.
    pub open spec fn any_pass(self) -> bool {
        exists|p: LifecyclePhase| #[trigger] self.at(p) matches Some(s) && s.status == PhaseStatus::Pass
    }

    /// Whether any recorded phase is unfinished or failed.
    pub open spec fn any_unsettled(self) -> bool {
        exists|p: LifecyclePhase|
            #[trigger] self.at(p) matches Some(s) && (s.status == PhaseStatus::Pending || s.status
                == PhaseStatus::Running || s.status == PhaseStatus::Error)
    }
}

/// The result a verifier reported for a test.
#[derive(Clone, Copy, Debug, PartialEq, Eq, Structural)]
pub enum VerifierStatus {
    Pass,
    Fail,
    Error,
}

/// The recorded result of one named test.
pub struct SuiteResult {
    pub name: String,
    pub status: VerifierStatus,
    pub message: Option<String>,
    pub recorded_at: u64,
}

/// Where a resource was created or destroyed: a scenario and a phase.
pub struct ResourceLocation {
    pub scenario_path: String,
    pub phase: LifecyclePhase,
}

/// One named attribute of a resource.
pub struct Attribute {
    pub name: String,
    pub value: Value,
}

/// A provisioned or discovered object.
pub struct Resource {
    pub id: String,
    pub resource_type: String,
    pub exists: bool,
    pub created: ResourceLocation,
    pub destroyed: Option<ResourceLocation>,
    pub attributes: Vec<Attribute>,
    pub relationships: Vec<String>,
    pub sensitive_attributes: Vec<String>,
}

/// The resources a provisioner reported, in its order.
pub struct ResourceManifest {
    pub resources: Vec<Resource>,
}

/// An error with the scenario and phase it came from.
pub struct ErrorRecord {
    pub scenario_path: String,
    pub phase: LifecyclePhase,
    pub message: String,
    pub recorded_at: u64,
}

impl ErrorRecord {
    /// An error recorded now.
    pub fn new(scenario_path: &str, phase: LifecyclePhase, message: &str) -> (r: ErrorRecord)
        ensures
            r.scenario_path@ == scenario_path@,
            r.phase == phase,
            r.message@ == message@,
    {
        ErrorRecord {
            scenario_path: owned(scenario_path),
            phase,
            message: owned(message),
            recorded_at: now(),
        }
    }
}

/// The state of one entered scenario.
pub struct ScenarioState {
    pub path: String,
    pub parent_path: Option<String>,
    pub phases: PhaseTable,
    pub test_results: Vec<SuiteResult>,
    pub resources: ResourceManifest,
    pub inventory_view: Option<Resource>,
}

/// What a scenario state holds, with its lists as sequences.
pub struct ScenarioView {
    pub path: Seq<char>,
    pub parent_path: Option<Seq<char>>,
    pub phases: PhaseTable,
    pub test_results: Seq<SuiteResult>,
    pub resources: Seq<Resource>,
    pub inventory_view: Option<Resource>,
}

pub open spec fn opt_chars(s: Option<String>) -> Option<Seq<char>> {
    match s {
        Some(s) => Some(s@),
        None => None,
    }
}

impl ScenarioView {
    /// A scenario just entered, with nothing recorded.
    pub open spec fn entered(path: Seq<char>, parent_path: Option<Seq<char>>) -> ScenarioView {
        ScenarioView {
            path,
            parent_path,
            phases: PhaseTable::empty_spec(),
            test_results: seq![],
            resources: seq![],
            inventory_view: None,
        }
    }
}

impl View for ScenarioState {
    type V = ScenarioView;

    open spec fn view(&self) -> ScenarioView {
        ScenarioView {
            path: self.path@,
            parent_path: opt_chars(self.parent_path),
            phases: self.phases,
            test_results: self.test_results@,
            resources: self.resources.resources@,
            inventory_view: self.inventory_view,
        }
    }
}

impl ScenarioState {
    /// A scenario entered with nothing recorded yet.
    pub fn new(path: &str, parent_path: Option<String>) -> (r: ScenarioState)
        ensures
            r@ == ScenarioView::entered(path@, opt_chars(parent_path)),
    {
        let r = ScenarioState {
            path: owned(path),
            parent_path,
            phases: PhaseTable::empty(),
            test_results: Vec::new(),
            resources: ResourceManifest { resources: Vec::new() },
            inventory_view: None,
        };
        assert(r@.test_results =~= seq![]);
        assert(r@.resources =~= seq![]);
        r
    }
}

// ---------------------------------------------------------------------------
// Lexical order of paths.
/// `a` orders before `b`, character by character.
pub open spec fn lex_less(a: Seq<char>, b: Seq<char>) -> bool
    decreases a.len(),
{
    if a.len() == 0 {
        b.len() > 0
    } else if b.len() == 0 {
        false
    } else if a[0] != b[0] {
        (a[0] as int) < (b[0] as int)
    } else {
        lex_less(a.drop_first(), b.drop_first())
    }
}

pub proof fn lemma_lex_irreflexive(a: Seq<char>)
    ensures
        !lex_less(a, a),
    decreases a.len(),
{
    if a.len() > 0 {
        lemma_lex_irreflexive(a.drop_first());
    }
}

pub proof fn lemma_lex_total(a: Seq<char>, b: Seq<char>)
    ensures
        a == b || lex_less(a, b) || lex_less(b, a),
    decreases a.len(),
{
    if a.len() > 0 && b.len() > 0 && a[0] == b[0] {
        lemma_lex_total(a.drop_first(), b.drop_first());
        if a.drop_first() == b.drop_first() {
            assert(a =~= seq![a[0]] + a.drop_first());
            assert(b =~= seq![b[0]] + b.drop_first());
        }
    } else if a.len() > 0 && b.len() > 0 {
        assert((a[0] as int) != (b[0] as int));
    } else if a.len() == 0 && b.len() == 0 {
        assert(a =~= b);
    }
}

pub proof fn lemma_lex_transitive(a: Seq<char>, b: Seq<char>, c: Seq<char>)
    requires
        lex_less(a, b),
        lex_less(b, c),
    ensures
        lex_less(a, c),
    decreases a.len(),
{
    if a.len() > 0 && b.len() > 0 && c.len() > 0 && a[0] == b[0] && b[0] == c[0] {
        lemma_lex_transitive(a.drop_first(), b.drop_first(), c.drop_first());
    }
}

/// Whether `a` orders before `b`.
pub fn str_less(a: &str, b: &str) -> (r: bool)
    ensures
        r == lex_less(a@, b@),
{
    let n = a.unicode_len();
    let m = b.unicode_len();
    let mut i: usize = 0;
    assert(a@.skip(0) =~= a@);
    assert(b@.skip(0) =~= b@);
    while i < n && i < m
        invariant
            n == a@.len(),
            m == b@.len(),
            i <= n,
            i <= m,
            lex_less(a@, b@) == lex_less(a@.skip(i as int), b@.skip(i as int)),
        decreases n - i,
    {
        let x = a.get_char(i);
        let y = b.get_char(i);
        assert(a@.skip(i as int)[0] == x);
        assert(b@.skip(i as int)[0] == y);
        if x != y {
            assert((x as u32) == (x as int) && (y as u32) == (y as int));
            return (x as u32) < (y as u32);
        }
        assert(a@.skip(i as int).drop_first() =~= a@.skip(i + 1));
        assert(b@.skip(i as int).drop_first() =~= b@.skip(i + 1));
        i = i + 1;
    }
    assert(a@.skip(i as int).len() == n - i);
    assert(b@.skip(i as int).len() == m - i);
    i < m
}

/// Whether scenario states are in strictly increasing lexical path order.
pub open spec fn sorted_paths(s: Seq<ScenarioState>) -> bool {
    forall|i: int, j: int| 0 <= i < j < s.len() ==> lex_less(#[trigger] s[i].path@, #[trigger] s[j].path@)
}

/// The position of the scenario state at `path`.
pub open spec fn position(s: Seq<ScenarioState>, path: Seq<char>) -> Option<int> {
    if exists|i: int| 0 <= i < s.len() && (#[trigger] s[i]).path@ == path {
        Some(choose|i: int| 0 <= i < s.len() && (#[trigger] s[i]).path@ == path)
    } else {
        None
    }
}

/// Paths in increasing order are distinct.
pub proof fn lemma_sorted_distinct(s: Seq<ScenarioState>, i: int, j: int)
    requires
        sorted_paths(s),
        0 <= i < s.len(),
        0 <= j < s.len(),
        s[i].path@ == s[j].path@,
    ensures
        i == j,
{
    if i < j {
        lemma_lex_irreflexive(s[i].path@);
    } else if j < i {
        lemma_lex_irreflexive(s[i].path@);
    }
}

/// The durable record of one run.
pub struct RunState {
    pub schema_version: u32,
    pub run_id: String,
    pub configuration_path: String,
    pub configuration_fingerprint: String,
    pub requested_scenario: Option<String>,
    pub keep: bool,
    pub scenarios: Vec<ScenarioState>,
    pub primary_error: Option<ErrorRecord>,
    pub cleanup_errors: Vec<ErrorRecord>,
    pub started_at: u64,
    pub updated_at: u64,
}

impl RunState {
    /// Whether the scenarios are held in lexical path order.
    pub open spec fn wf(&self) -> bool {
        sorted_paths(self.scenarios@)
    }

    /// How many failed tests the state records, over all scenarios.
    pub open spec fn failed_tests(&self) -> nat {
        scenario_fails(self.scenarios@)
    }

    /// Whether the scenarios are held in lexical path order (a state read
    /// back from disk is checked with this before it is used).
    pub fn paths_in_order(&self) -> (r: bool)
        ensures
            r == self.wf(),
    {
        let n = self.scenarios.len();
        let mut i: usize = 1;
        if n == 0 {
            return true;
        }
        while i < n
            invariant
                1 <= i <= n,
                n == self.scenarios@.len(),
                forall|a: int, b: int|
                    0 <= a < b < i ==> lex_less(
                        #[trigger] self.scenarios@[a].path@,
                        #[trigger] self.scenarios@[b].path@,
                    ),
            decreases n - i,
        {
            if !str_less(self.scenarios[i - 1].path.as_str(), self.scenarios[i].path.as_str()) {
                return false;
            }
            let ghost s = self.scenarios@;
            assert forall|a: int, b: int| 0 <= a < b < i + 1 implies lex_less(
                #[trigger] s[a].path@,
                #[trigger] s[b].path@,
            ) by {
                if b == i && a < i - 1 {
                    lemma_lex_transitive(s[a].path@, s[i - 1].path@, s[i as int].path@);
                }
            }
            i = i + 1;
        }
        true
    }

    /// The state of the scenario at `path`, when it was entered.
    pub open spec fn scenario(&self, path: Seq<char>) -> Option<ScenarioView> {
        match position(self.scenarios@, path) {
            Some(i) => Some(self.scenarios@[i]@),
            None => None,
        }
    }

    /// Whether the scenario at `path` was entered.
    pub open spec fn entered(&self, path: Seq<char>) -> bool {
        position(self.scenarios@, path) is Some
    }

    /// What stays the same when only scenario `path` changes.
    pub open spec fn only_changes(&self, other: &RunState, path: Seq<char>) -> bool {
        &&& other.wf()
        &&& other.scenarios@.len() == self.scenarios@.len()
        &&& forall|q: Seq<char>| #[trigger] other.entered(q) == self.entered(q)
        &&& forall|q: Seq<char>| q != path ==> #[trigger] other.scenario(q) == self.scenario(q)
        &&& other.primary_error == self.primary_error
        &&& other.cleanup_errors@ == self.cleanup_errors@
        &&& other.keep == self.keep
        &&& other.run_id@ == self.run_id@
    }

    /// A new run with no scenario entered.
    pub fn new(
        run_id: &str,
        configuration_path: &str,
        configuration_fingerprint: &str,
        requested_scenario: Option<String>,
        keep: bool,
    ) -> (r: RunState)
        ensures
            r.wf(),
            r.schema_version == STATE_SCHEMA_VERSION,
            r.run_id@ == run_id@,
            r.configuration_path@ == configuration_path@,
            r.configuration_fingerprint@ == configuration_fingerprint@,
            r.requested_scenario == requested_scenario,
            r.keep == keep,
            r.scenarios@.len() == 0,
            r.primary_error is None,
            r.cleanup_errors@.len() == 0,
            r.started_at == r.updated_at,
    {
        let timestamp = now();
        RunState {
            schema_version: STATE_SCHEMA_VERSION,
            run_id: owned(run_id),
            configuration_path: owned(configuration_path),
            configuration_fingerprint: owned(configuration_fingerprint),
            requested_scenario,
            keep,
            scenarios: Vec::new(),
            primary_error: None,
            cleanup_errors: Vec::new(),
            started_at: timestamp,
            updated_at: timestamp,
        }
    }

    /// The position of the scenario at `path`.
    pub fn find(&self, path: &str) -> (r: Option<usize>)
        requires
            self.wf(),
        ensures
            r == match position(self.scenarios@, path@) {
                Some(i) => Some(i as usize),
                None => None::<usize>,
            },
            r matches Some(i) ==> i < self.scenarios@.len() && self.scenarios@[i as int].path@
                == path@,
    {
        let mut i: usize = 0;
        while i < self.scenarios.len()
            invariant
                self.wf(),
                i <= self.scenarios@.len(),
                forall|j: int| 0 <= j < i ==> (#[trigger] self.scenarios@[j]).path@ != path@,
            decreases self.scenarios.len() - i,
        {
            if str_eq(self.scenarios[i].path.as_str(), path) {
                proof {
                    let k = choose|k: int|
                        0 <= k < self.scenarios@.len() && (#[trigger] self.scenarios@[k]).path@
                            == path@;
                    lemma_sorted_distinct(self.scenarios@, i as int, k);
                }
                return Some(i);
            }
            i = i + 1;
        }
        None
    }

    fn touch(&mut self)
        ensures
            final(self).scenarios@ == old(self).scenarios@,
            final(self).primary_error == old(self).primary_error,
            final(self).cleanup_errors@ == old(self).cleanup_errors@,
            final(self).keep == old(self).keep,
            final(self).run_id == old(self).run_id,
            final(self).schema_version == old(self).schema_version,
            final(self).requested_scenario == old(self).requested_scenario,
            final(self).started_at == old(self).started_at,
            final(self).configuration_path == old(self).configuration_path,
            final(self).configuration_fingerprint == old(self).configuration_fingerprint,
    {
        self.updated_at = now();
    }

    /// Enters the scenario at `path`; a scenario entered before keeps its
    /// state.
    pub fn enter_scenario(&mut self, path: &str, parent_path: Option<String>)
        requires
            old(self).wf(),
        ensures
            final(self).failed_tests() == old(self).failed_tests(),
            final(self).wf(),
            final(self).entered(path@),
            old(self).entered(path@) ==> final(self).scenario(path@) == old(self).scenario(path@),
            !old(self).entered(path@) ==> final(self).scenario(path@) == Some(
                ScenarioView::entered(path@, opt_chars(parent_path)),
            ),
            forall|q: Seq<char>| q != path@ ==> #[trigger] final(self).scenario(q) == old(self).scenario(q),
            forall|q: Seq<char>| q != path@ ==> #[trigger] final(self).entered(q) == old(self).entered(q),
            final(self).primary_error == old(self).primary_error,
            final(self).cleanup_errors@ == old(self).cleanup_errors@,
            final(self).keep == old(self).keep,
            final(self).run_id == old(self).run_id,
    {
        if self.find(path).is_some() {
            return;
        }
        self.touch();
        let mut k: usize = 0;
        while k < self.scenarios.len() && !str_less(path, self.scenarios[k].path.as_str())
            invariant
                self.wf(),
                k <= self.scenarios@.len(),
                forall|j: int| 0 <= j < self.scenarios@.len() ==> (#[trigger] self.scenarios@[j]).path@ != path@,
                forall|j: int| 0 <= j < k ==> lex_less(#[trigger] self.scenarios@[j].path@, path@),
            decreases self.scenarios.len() - k,
        {
            proof {
                lemma_lex_total(path@, self.scenarios@[k as int].path@);
            }
            k = k + 1;
        }
        let ghost before = self.scenarios@;
        let scenario = ScenarioState::new(path, parent_path);
        self.scenarios.insert(k, scenario);
        proof {
            lemma_fails_insert(before, k as int, scenario);
            assert(fail_count(scenario@.test_results) == 0);
            assert forall|j: int| k < j < before.len() implies lex_less(path@, #[trigger] before[j].path@) by {
                lemma_lex_transitive(path@, before[k as int].path@, before[j].path@);
            }
            assert(sorted_paths(self.scenarios@)) by {
                assert forall|i: int, j: int| 0 <= i < j < self.scenarios@.len() implies lex_less(
                    #[trigger] self.scenarios@[i].path@,
                    #[trigger] self.scenarios@[j].path@,
                ) by {
                    if j < k {
                        assert(self.scenarios@[i] == before[i] && self.scenarios@[j] == before[j]);
                    } else if j == k {
                        assert(self.scenarios@[i] == before[i]);
                    } else if i == k {
                        assert(self.scenarios@[j] == before[j - 1]);
                        if j - 1 > k {
                        }
                    } else if i < k {
                        assert(self.scenarios@[i] == before[i] && self.scenarios@[j] == before[j - 1]);
                        if j - 1 >= k as int {
                            lemma_lex_transitive(before[i].path@, path@, before[j - 1].path@);
                        }
                    } else {
                        assert(self.scenarios@[i] == before[i - 1] && self.scenarios@[j] == before[j - 1]);
                    }
                }
            }
            assert forall|q: Seq<char>| q != path@ implies #[trigger] self.entered(q) == old(self).entered(q) by {
                if old(self).entered(q) {
                    let j = choose|j: int| 0 <= j < before.len() && (#[trigger] before[j]).path@ == q;
                    if j < k {
                        assert(self.scenarios@[j] == before[j]);
                    } else {
                        assert(self.scenarios@[j + 1] == before[j]);
                    }
                }
                if self.entered(q) {
                    let j = choose|j: int| 0 <= j < self.scenarios@.len() && (#[trigger] self.scenarios@[j]).path@ == q;
                    if j < k {
                        assert(self.scenarios@[j] == before[j]);
                    } else if j > k {
                        assert(self.scenarios@[j] == before[j - 1]);
                    }
                }
            }
            assert forall|q: Seq<char>| q != path@ implies #[trigger] self.scenario(q) == old(self).scenario(q) by {
                if old(self).entered(q) {
                    let j = position(before, q)->0;
                    if j < k {
                        assert(self.scenarios@[j] == before[j]);
                        assert(self.entered(q));
                        let m = position(self.scenarios@, q)->0;
                        lemma_sorted_distinct(self.scenarios@, j, m);
                    } else {
                        assert(self.scenarios@[j + 1] == before[j]);
                        assert(self.entered(q));
                        let m = position(self.scenarios@, q)->0;
                        lemma_sorted_distinct(self.scenarios@, j + 1, m);
                    }
                } else {
                    assert(!self.entered(q));
                }
            }
            assert(self.scenarios@[k as int] == scenario);
            assert(self.entered(path@));
            let m = position(self.scenarios@, path@)->0;
            lemma_sorted_distinct(self.scenarios@, k as int, m);
        }
    }
}

impl PhaseTable {
    pub open spec fn empty_spec() -> PhaseTable {
        PhaseTable {
            dependency: None,
            create: None,
            prepare: None,
            converge: None,
            idempotence: None,
            verify: None,
            cleanup: None,
            destroy: None,
        }
    }
}


impl ScenarioView {
    pub open spec fn with_phases(self, phases: PhaseTable) -> ScenarioView {
        ScenarioView { phases, ..self }
    }

    pub open spec fn with_results(self, test_results: Seq<SuiteResult>) -> ScenarioView {
        ScenarioView { test_results, ..self }
    }

    pub open spec fn with_resources(self, resources: Seq<Resource>) -> ScenarioView {
        ScenarioView { resources, ..self }
    }

    pub open spec fn with_view(self, inventory_view: Option<Resource>) -> ScenarioView {
        ScenarioView { inventory_view, ..self }
    }
}

/// How many of `rs` are failed tests.
pub open spec fn fail_count(rs: Seq<SuiteResult>) -> nat
    decreases rs.len(),
{
    if rs.len() == 0 {
        0
    } else {
        fail_count(rs.drop_last()) + if rs.last().status == VerifierStatus::Fail {
            1nat
        } else {
            0nat
        }
    }
}

/// How many failed tests the scenario states `s` record in all.
pub open spec fn scenario_fails(s: Seq<ScenarioState>) -> nat
    decreases s.len(),
{
    if s.len() == 0 {
        0
    } else {
        scenario_fails(s.drop_last()) + fail_count(s.last()@.test_results)
    }
}

/// Replacing one scenario state changes the failed tests recorded in all
/// by what it changes in that scenario.
proof fn lemma_fails_replace(a: Seq<ScenarioState>, b: Seq<ScenarioState>, k: int)
    requires
        a.len() == b.len(),
        0 <= k < a.len(),
        forall|i: int| 0 <= i < a.len() && i != k ==> b[i] == a[i],
    ensures
        scenario_fails(b) + fail_count(a[k]@.test_results) == scenario_fails(a) + fail_count(
            b[k]@.test_results,
        ),
    decreases a.len(),
{
    if k == a.len() - 1 {
        assert(b.drop_last() =~= a.drop_last());
    } else {
        lemma_fails_replace(a.drop_last(), b.drop_last(), k);
        assert(b.last() == a.last());
    }
}

/// Inserting a scenario state adds the failed tests it records.
proof fn lemma_fails_insert(a: Seq<ScenarioState>, k: int, x: ScenarioState)
    requires
        0 <= k <= a.len(),
    ensures
        scenario_fails(a.insert(k, x)) == scenario_fails(a) + fail_count(x@.test_results),
    decreases a.len(),
{
    if k == a.len() {
        assert(a.insert(k, x).drop_last() =~= a);
    } else {
        lemma_fails_insert(a.drop_last(), k, x);
        assert(a.insert(k, x).drop_last() =~= a.drop_last().insert(k, x));
        assert(a.insert(k, x).last() == a.last());
    }
}

/// Changing one scenario state without changing its path keeps the order
/// and where every path is found.
proof fn lemma_replace_one(a: Seq<ScenarioState>, b: Seq<ScenarioState>, k: int)
    requires
        sorted_paths(a),
        a.len() == b.len(),
        0 <= k < a.len(),
        b[k].path@ == a[k].path@,
        forall|i: int| 0 <= i < a.len() && i != k ==> b[i] == a[i],
    ensures
        sorted_paths(b),
        forall|q: Seq<char>| #[trigger] position(b, q) == position(a, q),
        position(b, a[k].path@) == Some(k),
{
    assert forall|i: int, j: int| 0 <= i < j < b.len() implies lex_less(
        #[trigger] b[i].path@,
        #[trigger] b[j].path@,
    ) by {
        assert(b[i].path@ == a[i].path@);
        assert(b[j].path@ == a[j].path@);
    }
    assert forall|q: Seq<char>| #[trigger] position(b, q) == position(a, q) by {
        if exists|i: int| 0 <= i < a.len() && (#[trigger] a[i]).path@ == q {
            let i = choose|i: int| 0 <= i < a.len() && (#[trigger] a[i]).path@ == q;
            assert(b[i].path@ == q);
            let m = position(b, q)->0;
            assert(a[m].path@ == q);
            lemma_sorted_distinct(a, i, m);
        }
        if exists|i: int| 0 <= i < b.len() && (#[trigger] b[i]).path@ == q {
            let i = choose|i: int| 0 <= i < b.len() && (#[trigger] b[i]).path@ == q;
            assert(a[i].path@ == q);
        }
    }
    assert(b[k].path@ == a[k].path@);
    let m = position(b, a[k].path@)->0;
    lemma_sorted_distinct(b, k, m);
}

impl RunState {
    /// Records `phase` of the scenario at `scenario_path` as running from now.
    pub fn mark_phase_running(&mut self, scenario_path: &str, phase: LifecyclePhase)
        requires
            old(self).wf(),
            old(self).entered(scenario_path@),
        ensures
            final(self).failed_tests() == old(self).failed_tests(),
            old(self).only_changes(&*final(self), scenario_path@),
            final(self).scenario(scenario_path@) matches Some(v) && v == old(self).scenario(
                scenario_path@,
            )->0.with_phases(v.phases),
            final(self).scenario(scenario_path@)->0.phases.at(phase) matches Some(st) && st.status
                == PhaseStatus::Running && st.started_at is Some && st.completed_at is None,
            forall|q: LifecyclePhase|
                q != phase ==> #[trigger] final(self).scenario(scenario_path@)->0.phases.at(q)
                    == old(self).scenario(scenario_path@)->0.phases.at(q),
    {
        self.touch();
        let k = self.find(scenario_path).unwrap();
        let ghost before = self.scenarios@;
        let state = PhaseState::running();
        self.scenarios[k].phases.set(phase, state);
        proof {
            lemma_replace_one(before, self.scenarios@, k as int);
            lemma_fails_replace(before, self.scenarios@, k as int);
        }
    }
}


impl RunState {
    /// Records the result of `phase` of the scenario at `scenario_path`,
    /// completed now.  A phase that was running keeps its start time.
    pub fn complete_phase(&mut self, scenario_path: &str, phase: LifecyclePhase, status: PhaseStatus)
        requires
            old(self).wf(),
            old(self).entered(scenario_path@),
            is_result(status),
        ensures
            final(self).failed_tests() == old(self).failed_tests(),
            old(self).only_changes(&*final(self), scenario_path@),
            final(self).scenario(scenario_path@) matches Some(v) && v == old(self).scenario(
                scenario_path@,
            )->0.with_phases(v.phases),
            final(self).scenario(scenario_path@)->0.phases.at(phase) matches Some(st) && st.status
                == status && st.completed_at is Some && st.started_at is Some,
            old(self).scenario(scenario_path@)->0.phases.at(phase) matches Some(before) ==> (
            before.started_at is Some ==> final(self).scenario(scenario_path@)->0.phases.at(
                phase,
            )->0.started_at == before.started_at),
            forall|q: LifecyclePhase|
                q != phase ==> #[trigger] final(self).scenario(scenario_path@)->0.phases.at(q)
                    == old(self).scenario(scenario_path@)->0.phases.at(q),
    {
        self.touch();
        let k = self.find(scenario_path).unwrap();
        let ghost before = self.scenarios@;
        let started_at = match self.scenarios[k].phases.get(phase) {
            Some(st) => st.started_at,
            None => None,
        };
        let state = PhaseState::completed(status, started_at);
        self.scenarios[k].phases.set(phase, state);
        proof {
            lemma_replace_one(before, self.scenarios@, k as int);
            lemma_fails_replace(before, self.scenarios@, k as int);
        }
    }

    /// Appends a test result to the scenario at `scenario_path`.
    pub fn record_suite_result(&mut self, scenario_path: &str, result: SuiteResult)
        requires
            old(self).wf(),
            old(self).entered(scenario_path@),
        ensures
            final(self).failed_tests() == old(self).failed_tests() + if result.status == VerifierStatus::Fail {
                1nat
            } else {
                0nat
            },
            old(self).only_changes(&*final(self), scenario_path@),
            final(self).scenario(scenario_path@) == Some(
                old(self).scenario(scenario_path@)->0.with_results(
                    old(self).scenario(scenario_path@)->0.test_results.push(result),
                ),
            ),
    {
        self.touch();
        let k = self.find(scenario_path).unwrap();
        let ghost before = self.scenarios@;
        self.scenarios[k].test_results.push(result);
        proof {
            lemma_replace_one(before, self.scenarios@, k as int);
            lemma_fails_replace(before, self.scenarios@, k as int);
            assert(self.scenarios@[k as int]@.test_results.drop_last() =~= before[k as int]@.test_results);
        }
    }

    /// Replaces the resources of the scenario at `scenario_path`.
    pub fn set_resources(&mut self, scenario_path: &str, resources: ResourceManifest)
        requires
            old(self).wf(),
            old(self).entered(scenario_path@),
        ensures
            final(self).failed_tests() == old(self).failed_tests(),
            old(self).only_changes(&*final(self), scenario_path@),
            final(self).scenario(scenario_path@) == Some(
                old(self).scenario(scenario_path@)->0.with_resources(resources.resources@),
            ),
    {
        self.touch();
        let k = self.find(scenario_path).unwrap();
        let ghost before = self.scenarios@;
        self.scenarios[k].resources = resources;
        proof {
            lemma_replace_one(before, self.scenarios@, k as int);
            lemma_fails_replace(before, self.scenarios@, k as int);
        }
    }

    /// Records the inventory view generated for the scenario at
    /// `scenario_path`.
    pub fn set_inventory_view(&mut self, scenario_path: &str, view: Resource)
        requires
            old(self).wf(),
            old(self).entered(scenario_path@),
        ensures
            final(self).failed_tests() == old(self).failed_tests(),
            old(self).only_changes(&*final(self), scenario_path@),
            final(self).scenario(scenario_path@) == Some(
                old(self).scenario(scenario_path@)->0.with_view(Some(view)),
            ),
    {
        self.touch();
        let k = self.find(scenario_path).unwrap();
        let ghost before = self.scenarios@;
        self.scenarios[k].inventory_view = Some(view);
        proof {
            lemma_replace_one(before, self.scenarios@, k as int);
            lemma_fails_replace(before, self.scenarios@, k as int);
        }
    }

    /// Marks every existing resource of the scenario at `scenario_path` as
    /// destroyed by its destroy phase.
    pub fn mark_resources_destroyed(&mut self, scenario_path: &str)
        requires
            old(self).wf(),
            old(self).entered(scenario_path@),
        ensures
            final(self).failed_tests() == old(self).failed_tests(),
            old(self).only_changes(&*final(self), scenario_path@),
            final(self).scenario(scenario_path@) matches Some(v) && v == old(self).scenario(
                scenario_path@,
            )->0.with_resources(v.resources),
            destroyed_all(
                old(self).scenario(scenario_path@)->0.resources,
                final(self).scenario(scenario_path@)->0.resources,
                scenario_path@,
            ),
    {
        self.touch();
        let k = self.find(scenario_path).unwrap();
        let ghost before = self.scenarios@;
        let ghost rs = self.scenarios@[k as int].resources.resources@;
        let n = self.scenarios[k].resources.resources.len();
        let mut i: usize = 0;
        while i < n
            invariant
                self.primary_error == old(self).primary_error,
                self.cleanup_errors@ == old(self).cleanup_errors@,
                self.keep == old(self).keep,
                self.run_id@ == old(self).run_id@,
                k < self.scenarios@.len(),
                self.scenarios@.len() == before.len(),
                n == rs.len(),
                i <= n,
                self.scenarios@[k as int].path == before[k as int].path,
                self.scenarios@[k as int].parent_path == before[k as int].parent_path,
                self.scenarios@[k as int].phases == before[k as int].phases,
                self.scenarios@[k as int].test_results == before[k as int].test_results,
                self.scenarios@[k as int].inventory_view == before[k as int].inventory_view,
                self.scenarios@[k as int].resources.resources@.len() == n,
                forall|j: int| 0 <= j < before.len() && j != k ==> self.scenarios@[j] == before[j],
                forall|j: int| i <= j < n ==> self.scenarios@[k as int].resources.resources@[j] == rs[j],
                forall|j: int|
                    0 <= j < i ==> destroyed_one(
                        rs[j],
                        #[trigger] self.scenarios@[k as int].resources.resources@[j],
                        scenario_path@,
                    ),
            decreases n - i,
        {
            if self.scenarios[k].resources.resources[i].exists {
                let location = ResourceLocation {
                    scenario_path: owned(scenario_path),
                    phase: LifecyclePhase::Destroy,
                };
                self.scenarios[k].resources.resources[i].exists = false;
                self.scenarios[k].resources.resources[i].destroyed = Some(location);
            }
            i = i + 1;
        }
        proof {
            lemma_replace_one(before, self.scenarios@, k as int);
            lemma_fails_replace(before, self.scenarios@, k as int);
        }
    }

    /// Keeps the first execution error as the primary error; a later one is
    /// dropped.
    pub fn record_primary_error(&mut self, error: ErrorRecord)
        ensures
            final(self).primary_error == if old(self).primary_error is Some {
                old(self).primary_error
            } else {
                Some(error)
            },
            final(self).scenarios@ == old(self).scenarios@,
            final(self).cleanup_errors@ == old(self).cleanup_errors@,
            final(self).keep == old(self).keep,
            final(self).run_id == old(self).run_id,
            old(self).primary_error is Some ==> *final(self) == *old(self),
            final(self).started_at == old(self).started_at,
            final(self).configuration_path == old(self).configuration_path,
            final(self).configuration_fingerprint == old(self).configuration_fingerprint,
            final(self).requested_scenario == old(self).requested_scenario,
            final(self).schema_version == old(self).schema_version,
    {
        if self.primary_error.is_none() {
            self.primary_error = Some(error);
            self.touch();
        }
    }

    /// Appends a cleanup or destroy error; the primary error stays.
    pub fn record_cleanup_error(&mut self, error: ErrorRecord)
        ensures
            final(self).cleanup_errors@ == old(self).cleanup_errors@.push(error),
            final(self).primary_error == old(self).primary_error,
            final(self).scenarios@ == old(self).scenarios@,
            final(self).keep == old(self).keep,
            final(self).run_id == old(self).run_id,
    {
        self.cleanup_errors.push(error);
        self.touch();
    }

    /// Records whether keep mode is active.
    pub fn set_keep(&mut self, keep: bool)
        ensures
            final(self).keep == keep,
            final(self).scenarios@ == old(self).scenarios@,
            final(self).primary_error == old(self).primary_error,
            final(self).cleanup_errors@ == old(self).cleanup_errors@,
            final(self).run_id == old(self).run_id,
    {
        self.keep = keep;
    }
}

/// What destroying one resource in `path` leaves of it.
pub open spec fn destroyed_one(before: Resource, after: Resource, path: Seq<char>) -> bool {
    &&& !after.exists
    &&& after.id == before.id
    &&& after.resource_type == before.resource_type
    &&& after.created == before.created
    &&& after.attributes == before.attributes
    &&& after.relationships == before.relationships
    &&& after.sensitive_attributes == before.sensitive_attributes
    &&& if before.exists {
        after.destroyed matches Some(l) && l.scenario_path@ == path && l.phase
            == LifecyclePhase::Destroy
    } else {
        after.destroyed == before.destroyed
    }
}

/// What destroying the resources of a scenario at `path` leaves of them.
pub open spec fn destroyed_all(before: Seq<Resource>, after: Seq<Resource>, path: Seq<char>) -> bool {
    &&& after.len() == before.len()
    &&& forall|i: int| 0 <= i < before.len() ==> destroyed_one(before[i], #[trigger] after[i], path)
}


/// The path of the `i`-th ancestor named by `segs`: the first `i + 1`
/// segments joined by `/`.
pub open spec fn ancestor_path(segs: Seq<Seq<char>>, i: int) -> Seq<char>
    decreases i,
{
    if i <= 0 {
        segs[0]
    } else {
        let a = ancestor_path(segs, i - 1);
        if a.len() == 0 {
            segs[i]
        } else {
            a + seq!['/'] + segs[i]
        }
    }
}

/// The resources of `rs` that still exist, in order.
pub open spec fn live(rs: Seq<Resource>) -> Seq<Resource>
    decreases rs.len(),
{
    if rs.len() == 0 {
        seq![]
    } else {
        live(rs.drop_last()) + if rs.last().exists {
            seq![rs.last()]
        } else {
            seq![]
        }
    }
}

/// The existing resources of the first `n` ancestors named by `segs`,
/// ancestors first, each in its own order.
pub open spec fn visible_upto(st: RunState, segs: Seq<Seq<char>>, n: int) -> Seq<Resource>
    decreases n,
{
    if n <= 0 {
        seq![]
    } else {
        visible_upto(st, segs, n - 1) + match st.scenario(ancestor_path(segs, n - 1)) {
            Some(v) => live(v.resources),
            None => seq![],
        }
    }
}

/// The resources a scenario sees: the existing resources of its entered
/// ancestors and of itself, ancestors first.
pub open spec fn visible(st: RunState, path: Seq<char>) -> Seq<Resource> {
    visible_upto(st, segments(path), segments(path).len() as int)
}

impl RunState {
    /// The resources the scenario at `path` sees: existing resources of its
    /// entered ancestors and of itself, ancestors first, each scenario's in
    /// its own order.
    pub fn visible_resources(&self, path: &str) -> (r: Vec<&Resource>)
        requires
            self.wf(),
        ensures
            r@.map_values(|x: &Resource| *x) == visible(*self, path@),
    {
        let segs = split_segments(path);
        let ghost views = segs@.map_values(|x: String| x@);
        let mut out: Vec<&Resource> = Vec::new();
        let mut ancestor = String::new();
        let mut i: usize = 0;
        while i < segs.len()
            invariant
                self.wf(),
                views == segs@.map_values(|x: String| x@),
                views == segments(path@),
                i <= segs@.len(),
                i > 0 ==> ancestor@ == ancestor_path(views, i - 1),
                i == 0 ==> ancestor@.len() == 0,
                out@.map_values(|x: &Resource| *x) == visible_upto(*self, views, i as int),
            decreases segs.len() - i,
        {
            let ghost previous = ancestor@;
            if ancestor.unicode_len() > 0 {
                ancestor.append("/");
            }
            ancestor.append(segs[i].as_str());
            proof {
                reveal_strlit("/");
                if i == 0 {
                    assert(ancestor@ =~= views[0]);
                } else if previous.len() == 0 {
                    assert(ancestor@ =~= views[i as int]);
                } else {
                    assert(ancestor@ =~= previous + seq!['/'] + views[i as int]);
                }
            }
            match self.find(ancestor.as_str()) {
                Some(k) => {
                    proof {
                        assert(self.scenarios@[k as int].path@ == ancestor@);
                        assert(self.entered(ancestor@));
                        let m = position(self.scenarios@, ancestor@)->0;
                        lemma_sorted_distinct(self.scenarios@, k as int, m);
                    }
                    assert(self.scenario(ancestor@) == Some(self.scenarios@[k as int]@));
                    let resources = &self.scenarios[k].resources.resources;
                    let ghost rs = resources@;
                    let ghost start = out@.map_values(|x: &Resource| *x);
                    let mut j: usize = 0;
                    while j < resources.len()
                        invariant
                            rs == resources@,
                            j <= rs.len(),
                            out@.map_values(|x: &Resource| *x) == start + live(rs.take(j as int)),
                        decreases resources.len() - j,
                    {
                        let ghost before = out@.map_values(|x: &Resource| *x);
                        if resources[j].exists {
                            out.push(&resources[j]);
                        }
                        proof {
                            assert(rs.take(j + 1).drop_last() =~= rs.take(j as int));
                            assert(rs.take(j + 1).last() == rs[j as int]);
                            if rs[j as int].exists {
                                assert(out@.map_values(|x: &Resource| *x) =~= before.push(rs[j as int]));
                            } else {
                                assert(out@.map_values(|x: &Resource| *x) =~= before);
                            }
                            assert(out@.map_values(|x: &Resource| *x) =~= start + live(
                                rs.take(j + 1),
                            ));
                        }
                        j = j + 1;
                    }
                    assert(rs.take(rs.len() as int) =~= rs);
                },
                None => {
                    assert(out@.map_values(|x: &Resource| *x) =~= visible_upto(
                        *self,
                        views,
                        i + 1,
                    ));
                },
            }
            i = i + 1;
        }
        out
    }
}

/// Where a run's state is kept: one state file path.
pub struct StateStore {
    path: String,
}

impl StateStore {
    /// A store for the state file at `path`.
    pub fn new(path: &str) -> (r: StateStore)
        ensures
            r.path_spec() == path@,
    {
        StateStore { path: owned(path) }
    }

    pub closed spec fn path_spec(&self) -> Seq<char> {
        self.path@
    }

    /// The state file this store reads and writes.
    pub fn path(&self) -> (r: &str)
        ensures
            r@ == self.path_spec(),
    {
        self.path.as_str()
    }
}

/// Why state could not be read or written.
pub enum StateError {
    Io { path: String, message: String },
    Deserialize { path: String, message: String },
    Serialize { path: String, message: String },
    UnsupportedSchemaVersion { path: String, found: u32, supported: u32 },
}

/// Checks that state read from, or about to be written to, `path` has the
/// schema version this library supports.
pub fn check_schema_version(path: &str, found: u32) -> (r: Result<(), StateError>)
    ensures
        r is Ok <==> found == STATE_SCHEMA_VERSION,
        r matches Err(e) ==> e matches StateError::UnsupportedSchemaVersion {
            path: p,
            found: f,
            supported: s,
        } && p@ == path@ && f == found && s == STATE_SCHEMA_VERSION,
{
    if found == STATE_SCHEMA_VERSION {
        Ok(())
    } else {
        Err(
            StateError::UnsupportedSchemaVersion {
                path: owned(path),
                found,
                supported: STATE_SCHEMA_VERSION,
            },
        )
    }
}


proof fn lemma_live_exist(rs: Seq<Resource>)
    ensures
        forall|i: int| 0 <= i < live(rs).len() ==> (#[trigger] live(rs)[i]).exists,
    decreases rs.len(),
{
    if rs.len() > 0 {
        lemma_live_exist(rs.drop_last());
        let prev = live(rs.drop_last());
        assert forall|i: int| 0 <= i < live(rs).len() implies (#[trigger] live(rs)[i]).exists by {
            if i < prev.len() {
                assert(live(rs)[i] == prev[i]);
            }
        }
    }
}

proof fn lemma_visible_upto_exist(st: RunState, segs: Seq<Seq<char>>, n: int)
    ensures
        forall|i: int|
            0 <= i < visible_upto(st, segs, n).len() ==> (#[trigger] visible_upto(st, segs, n)[i]).exists,
    decreases n,
{
    if n > 0 {
        lemma_visible_upto_exist(st, segs, n - 1);
        let prev = visible_upto(st, segs, n - 1);
        let here = match st.scenario(ancestor_path(segs, n - 1)) {
            Some(v) => live(v.resources),
            None => seq![],
        };
        match st.scenario(ancestor_path(segs, n - 1)) {
            Some(v) => lemma_live_exist(v.resources),
            None => {},
        }
        assert forall|i: int| 0 <= i < visible_upto(st, segs, n).len() implies (#[trigger] visible_upto(
            st,
            segs,
            n,
        )[i]).exists by {
            if i < prev.len() {
                assert(visible_upto(st, segs, n)[i] == prev[i]);
            } else {
                assert(visible_upto(st, segs, n)[i] == here[i - prev.len()]);
            }
        }
    }
}

/// Destroyed resources are never visible: every resource a scenario sees
/// still exists.
pub proof fn lemma_visible_resources_exist(st: RunState, path: Seq<char>)
    ensures
        forall|i: int| 0 <= i < visible(st, path).len() ==> (#[trigger] visible(st, path)[i]).exists,
{
    lemma_visible_upto_exist(st, segments(path), segments(path).len() as int);
}

} // verus!

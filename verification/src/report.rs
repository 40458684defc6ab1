//! The scenario report: entrance, phase and verdict lines, the run summary,
//! and the replay of a persisted run.
use vstd::prelude::*;

use crate::selector::{is_same_or_descendant, same_or_below};
use crate::state::{
    is_result, LifecyclePhase, PhaseStatus, PhaseTable, Resource, RunState, ScenarioState,
    ScenarioView, VerifierStatus,
};
use crate::text::{decimal, decimal_string, str_eq};

verus! {

/// The name of a lifecycle phase.
pub open spec fn phase_text(phase: LifecyclePhase) -> Seq<char> {
    match phase {
        LifecyclePhase::Dependency => "dependency"@,
        LifecyclePhase::Create => "create"@,
        LifecyclePhase::Prepare => "prepare"@,
        LifecyclePhase::Converge => "converge"@,
        LifecyclePhase::Idempotence => "idempotence"@,
        LifecyclePhase::Verify => "verify"@,
        LifecyclePhase::Cleanup => "cleanup"@,
        LifecyclePhase::Destroy => "destroy"@,
    }
}

/// The name of a lifecycle phase.
pub fn phase_name(phase: LifecyclePhase) -> (r: &'static str)
    ensures
        r@ == phase_text(phase),
{
    match phase {
        LifecyclePhase::Dependency => "dependency",
        LifecyclePhase::Create => "create",
        LifecyclePhase::Prepare => "prepare",
        LifecyclePhase::Converge => "converge",
        LifecyclePhase::Idempotence => "idempotence",
        LifecyclePhase::Verify => "verify",
        LifecyclePhase::Cleanup => "cleanup",
        LifecyclePhase::Destroy => "destroy",
    }
}

/// The name of a phase status.
pub open spec fn status_text(status: PhaseStatus) -> Seq<char> {
    match status {
        PhaseStatus::Pending => "pending"@,
        PhaseStatus::Running => "running"@,
        PhaseStatus::Skipped => "skipped"@,
        PhaseStatus::Pass => "pass"@,
        PhaseStatus::Error => "error"@,
    }
}

/// The name of a phase status.
pub fn status_name(status: PhaseStatus) -> (r: &'static str)
    ensures
        r@ == status_text(status),
{
    match status {
        PhaseStatus::Pending => "pending",
        PhaseStatus::Running => "running",
        PhaseStatus::Skipped => "skipped",
        PhaseStatus::Pass => "pass",
        PhaseStatus::Error => "error",
    }
}

/// The terminal color of a result word.
pub open spec fn color_text(result: Seq<char>) -> Seq<char> {
    if result == "skipped"@ {
        "\x1b[90m"@
    } else if result == "pass"@ || result == "passed"@ {
        "\x1b[32m"@
    } else if result == "error"@ || result == "fail"@ || result == "failed"@ {
        "\x1b[31m"@
    } else {
        ""@
    }
}

/// The terminal color of a result word.
pub fn result_color(result: &str) -> (r: &'static str)
    ensures
        r@ == color_text(result@),
{
    if str_eq(result, "skipped") {
        "\x1b[90m"
    } else if str_eq(result, "pass") || str_eq(result, "passed") {
        "\x1b[32m"
    } else if str_eq(result, "error") || str_eq(result, "fail") || str_eq(result, "failed") {
        "\x1b[31m"
    } else {
        ""
    }
}

/// The scenario entrance line.
pub open spec fn entrance_text(path: Seq<char>, styled: bool) -> Seq<char> {
    if styled {
        "\x1b[1mScenario: "@ + path + "\x1b[0m"@
    } else {
        "Scenario: "@ + path
    }
}

/// The scenario entrance line.
pub fn scenario_entrance(path: &str, styled_output: bool) -> (r: String)
    ensures
        r@ == entrance_text(path@, styled_output),
{
    let mut r = String::new();
    if styled_output {
        r.append("\x1b[1mScenario: ");
        r.append(path);
        r.append("\x1b[0m");
    } else {
        r.append("Scenario: ");
        r.append(path);
    }
    r
}

/// The line announcing that a phase is running; it is never styled.
pub open spec fn running_text(path: Seq<char>, phase: LifecyclePhase) -> Seq<char> {
    path + "::"@ + phase_text(phase) + " running"@
}

/// The line announcing that a phase is running.
pub fn phase_running_line(path: &str, phase: LifecyclePhase) -> (r: String)
    ensures
        r@ == running_text(path@, phase),
{
    let mut r = String::new();
    r.append(path);
    r.append("::");
    r.append(phase_name(phase));
    r.append(" running");
    r
}

/// The number of resources of `rs` recorded as destroyed.
pub open spec fn destroyed_count(rs: Seq<Resource>) -> nat
    decreases rs.len(),
{
    if rs.len() == 0 {
        0
    } else {
        destroyed_count(rs.drop_last()) + if rs.last().destroyed is Some {
            1nat
        } else {
            0nat
        }
    }
}

/// The destroyed count of two lists together is the sum of their counts.
proof fn lemma_destroyed_count_concat(a: Seq<Resource>, b: Seq<Resource>)
    ensures
        destroyed_count(a + b) == destroyed_count(a) + destroyed_count(b),
    decreases b.len(),
{
    if b.len() == 0 {
        assert(a + b =~= a);
    } else {
        lemma_destroyed_count_concat(a, b.drop_last());
        assert((a + b).drop_last() =~= a + b.drop_last());
        assert((a + b).last() == b.last());
    }
}

/// A resource adds to the destroyed count exactly when it records where it
/// was destroyed: no list of resources that were never destroyed counts
/// any, a list of destroyed resources counts all of them, and the count of
/// two lists together is the sum of their counts.
pub proof fn lemma_destroyed_count_law(a: Seq<Resource>, b: Seq<Resource>)
    ensures
        (forall|i: int| 0 <= i < a.len() ==> (#[trigger] a[i]).destroyed is None) ==> destroyed_count(a)
            == 0,
        (forall|i: int| 0 <= i < a.len() ==> (#[trigger] a[i]).destroyed is Some) ==> destroyed_count(a)
            == a.len(),
        destroyed_count(a + b) == destroyed_count(a) + destroyed_count(b),
    decreases a.len(),
{
    lemma_destroyed_count_concat(a, b);
    if a.len() > 0 {
        lemma_destroyed_count_law(a.drop_last(), b);
        if forall|i: int| 0 <= i < a.len() ==> (#[trigger] a[i]).destroyed is None {
            assert forall|i: int| 0 <= i < a.drop_last().len() implies (#[trigger] a.drop_last()[i]).destroyed is None by {
                assert(a.drop_last()[i] == a[i]);
            }
        }
        if forall|i: int| 0 <= i < a.len() ==> (#[trigger] a[i]).destroyed is Some {
            assert forall|i: int| 0 <= i < a.drop_last().len() implies (#[trigger] a.drop_last()[i]).destroyed is Some by {
                assert(a.drop_last()[i] == a[i]);
            }
        }
    }
}

proof fn lemma_destroyed_count_bound(rs: Seq<Resource>)
    ensures
        destroyed_count(rs) <= rs.len(),
    decreases rs.len(),
{
    if rs.len() > 0 {
        lemma_destroyed_count_bound(rs.drop_last());
    }
}

/// The number of resources of `rs` recorded as destroyed.
pub fn count_destroyed(rs: &Vec<Resource>) -> (r: usize)
    ensures
        r == destroyed_count(rs@),
{
    let mut count: usize = 0;
    let mut i: usize = 0;
    while i < rs.len()
        invariant
            i <= rs@.len(),
            count == destroyed_count(rs@.take(i as int)),
        decreases rs.len() - i,
    {
        proof {
            assert(rs@.take(i + 1).drop_last() =~= rs@.take(i as int));
            lemma_destroyed_count_bound(rs@.take(i as int));
        }
        if rs[i].destroyed.is_some() {
            count = count + 1;
        }
        i = i + 1;
    }
    assert(rs@.take(rs@.len() as int) =~= rs@);
    count
}

/// What a phase result line says after the phase name: for a passed create
/// or destroy, the resources it added or deleted; otherwise the status.
pub open spec fn result_words(
    phase: LifecyclePhase,
    status: PhaseStatus,
    scenario: Option<ScenarioView>,
) -> Seq<char> {
    if status == PhaseStatus::Pass && phase == LifecyclePhase::Create {
        decimal(
            match scenario {
                Some(v) => v.resources.len(),
                None => 0,
            },
        ) + " resource added"@
    } else if status == PhaseStatus::Pass && phase == LifecyclePhase::Destroy {
        decimal(
            match scenario {
                Some(v) => destroyed_count(v.resources),
                None => 0,
            },
        ) + " resource deleted"@
    } else {
        status_text(status)
    }
}

/// A phase result line.
pub open spec fn result_text(
    path: Seq<char>,
    phase: LifecyclePhase,
    status: PhaseStatus,
    scenario: Option<ScenarioView>,
    styled: bool,
) -> Seq<char> {
    let separator = if status == PhaseStatus::Pass && (phase == LifecyclePhase::Create || phase
        == LifecyclePhase::Destroy) {
        ": "@
    } else {
        " "@
    };
    let line = path + "::"@ + phase_text(phase) + separator + result_words(
        phase,
        status,
        scenario,
    );
    if styled {
        color_text(status_text(status)) + line + "\x1b[0m"@
    } else {
        line
    }
}

/// A phase result line.
pub fn phase_result_line(
    path: &str,
    phase: LifecyclePhase,
    status: PhaseStatus,
    scenario: Option<&ScenarioState>,
    styled_output: bool,
) -> (r: String)
    ensures
        r@ == result_text(
            path@,
            phase,
            status,
            match scenario {
                Some(s) => Some(s@),
                None => None,
            },
            styled_output,
        ),
{
    let mut r = String::new();
    let status_word = status_name(status);
    if styled_output {
        r.append(result_color(status_word));
    }
    r.append(path);
    r.append("::");
    r.append(phase_name(phase));
    let count_line = status == PhaseStatus::Pass && (phase == LifecyclePhase::Create || phase
        == LifecyclePhase::Destroy);
    if count_line {
        r.append(": ");
        let count: usize = match scenario {
            Some(s) => if phase == LifecyclePhase::Create {
                s.resources.resources.len()
            } else {
                count_destroyed(&s.resources.resources)
            },
            None => 0,
        };
        let digits = decimal_string(count as u64);
        r.append(digits.as_str());
        if phase == LifecyclePhase::Create {
            r.append(" resource added");
        } else {
            r.append(" resource deleted");
        }
    } else {
        r.append(" ");
        r.append(status_word);
    }
    if styled_output {
        r.append("\x1b[0m");
    }
    r
}

/// Whether a scenario state has any passed phase.
pub fn any_phase_passed(phases: &PhaseTable) -> (r: bool)
    ensures
        r == phases.any_pass(),
{
    let all: [LifecyclePhase; 8] = [
        LifecyclePhase::Dependency,
        LifecyclePhase::Create,
        LifecyclePhase::Prepare,
        LifecyclePhase::Converge,
        LifecyclePhase::Idempotence,
        LifecyclePhase::Verify,
        LifecyclePhase::Cleanup,
        LifecyclePhase::Destroy,
    ];
    let mut i: usize = 0;
    while i < 8
        invariant
            i <= 8,
            all@ == seq![
                LifecyclePhase::Dependency,
                LifecyclePhase::Create,
                LifecyclePhase::Prepare,
                LifecyclePhase::Converge,
                LifecyclePhase::Idempotence,
                LifecyclePhase::Verify,
                LifecyclePhase::Cleanup,
                LifecyclePhase::Destroy,
            ],
            forall|j: int|
                0 <= j < i ==> !(phases.at(#[trigger] all@[j]) matches Some(s) && s.status
                    == PhaseStatus::Pass),
        decreases 8 - i,
    {
        match phases.get(all[i]) {
            Some(s) => if s.status == PhaseStatus::Pass {
                return true;
            },
            None => {},
        }
        i = i + 1;
    }
    assert forall|p: LifecyclePhase| !(#[trigger] phases.at(p) matches Some(s) && s.status
        == PhaseStatus::Pass) by {
        match p {
            LifecyclePhase::Dependency => assert(all@[0] == p),
            LifecyclePhase::Create => assert(all@[1] == p),
            LifecyclePhase::Prepare => assert(all@[2] == p),
            LifecyclePhase::Converge => assert(all@[3] == p),
            LifecyclePhase::Idempotence => assert(all@[4] == p),
            LifecyclePhase::Verify => assert(all@[5] == p),
            LifecyclePhase::Cleanup => assert(all@[6] == p),
            LifecyclePhase::Destroy => assert(all@[7] == p),
        }
    }
    false
}

/// Whether a scenario state has any phase pending, running or failed.
pub fn any_phase_unsettled(phases: &PhaseTable) -> (r: bool)
    ensures
        r == phases.any_unsettled(),
{
    let all: [LifecyclePhase; 8] = [
        LifecyclePhase::Dependency,
        LifecyclePhase::Create,
        LifecyclePhase::Prepare,
        LifecyclePhase::Converge,
        LifecyclePhase::Idempotence,
        LifecyclePhase::Verify,
        LifecyclePhase::Cleanup,
        LifecyclePhase::Destroy,
    ];
    let mut i: usize = 0;
    while i < 8
        invariant
            i <= 8,
            all@ == seq![
                LifecyclePhase::Dependency,
                LifecyclePhase::Create,
                LifecyclePhase::Prepare,
                LifecyclePhase::Converge,
                LifecyclePhase::Idempotence,
                LifecyclePhase::Verify,
                LifecyclePhase::Cleanup,
                LifecyclePhase::Destroy,
            ],
            forall|j: int|
                0 <= j < i ==> !(phases.at(#[trigger] all@[j]) matches Some(s) && (s.status
                    == PhaseStatus::Pending || s.status == PhaseStatus::Running || s.status
                    == PhaseStatus::Error)),
        decreases 8 - i,
    {
        match phases.get(all[i]) {
            Some(s) => if s.status == PhaseStatus::Pending || s.status == PhaseStatus::Running
                || s.status == PhaseStatus::Error {
                return true;
            },
            None => {},
        }
        i = i + 1;
    }
    assert forall|p: LifecyclePhase| !(#[trigger] phases.at(p) matches Some(s) && (s.status
        == PhaseStatus::Pending || s.status == PhaseStatus::Running || s.status
        == PhaseStatus::Error)) by {
        match p {
            LifecyclePhase::Dependency => assert(all@[0] == p),
            LifecyclePhase::Create => assert(all@[1] == p),
            LifecyclePhase::Prepare => assert(all@[2] == p),
            LifecyclePhase::Converge => assert(all@[3] == p),
            LifecyclePhase::Idempotence => assert(all@[4] == p),
            LifecyclePhase::Verify => assert(all@[5] == p),
            LifecyclePhase::Cleanup => assert(all@[6] == p),
            LifecyclePhase::Destroy => assert(all@[7] == p),
        }
    }
    false
}

/// The verdict of a scenario: `error` after an error, `passed` when any of
/// its phases passed, and `skipped` otherwise.
pub open spec fn verdict_of(st: RunState, path: Seq<char>, had_error: bool) -> Seq<char> {
    if had_error {
        "error"@
    } else if st.scenario(path) matches Some(v) && v.phases.any_pass() {
        "passed"@
    } else {
        "skipped"@
    }
}

/// The verdict of a scenario.
pub fn scenario_verdict(state: &RunState, path: &str, had_error: bool) -> (r: &'static str)
    requires
        state.wf(),
    ensures
        r@ == verdict_of(*state, path@, had_error),
{
    if had_error {
        return "error";
    }
    match state.find(path) {
        Some(k) => {
            proof {
                assert(state.scenarios@[k as int].path@ == path@);
                assert(state.entered(path@));
                let m = crate::state::position(state.scenarios@, path@)->0;
                crate::state::lemma_sorted_distinct(state.scenarios@, k as int, m);
            }
            if any_phase_passed(&state.scenarios[k].phases) {
                "passed"
            } else {
                "skipped"
            }
        },
        None => "skipped",
    }
}

/// The scenario verdict line.
pub open spec fn verdict_text(path: Seq<char>, verdict: Seq<char>, styled: bool) -> Seq<char> {
    if styled {
        color_text(verdict) + "\x1b[1mScenario: "@ + path + ": "@ + verdict + "\x1b[0m"@
    } else {
        "Scenario: "@ + path + ": "@ + verdict
    }
}

/// The scenario verdict line.
pub fn scenario_verdict_line(state: &RunState, path: &str, had_error: bool, styled_output: bool) -> (r:
    String)
    requires
        state.wf(),
    ensures
        r@ == verdict_text(path@, verdict_of(*state, path@, had_error), styled_output),
{
    let verdict = scenario_verdict(state, path, had_error);
    let mut r = String::new();
    if styled_output {
        r.append(result_color(verdict));
        r.append("\x1b[1mScenario: ");
        r.append(path);
        r.append(": ");
        r.append(verdict);
        r.append("\x1b[0m");
    } else {
        r.append("Scenario: ");
        r.append(path);
        r.append(": ");
        r.append(verdict);
    }
    r
}

/// How a run ended: execution errors and verifier failures.
#[derive(Clone, Copy, Debug, PartialEq, Eq, Structural)]
pub struct RunOutcome {
    pub verifier_failures: usize,
    pub execution_errors: usize,
}

impl RunOutcome {
    /// No error and no verifier failure.
    pub fn succeeded(&self) -> (r: bool)
        ensures
            r == (self.verifier_failures == 0 && self.execution_errors == 0),
    {
        self.verifier_failures == 0 && self.execution_errors == 0
    }
}

/// The number of resources of the scenarios `s`, and how many of them are
/// recorded as destroyed.
pub open spec fn resource_totals(s: Seq<ScenarioState>) -> (nat, nat)
    decreases s.len(),
{
    if s.len() == 0 {
        (0, 0)
    } else {
        let (c, d) = resource_totals(s.drop_last());
        (
            c + s.last().resources.resources@.len(),
            d + destroyed_count(s.last().resources.resources@),
        )
    }
}

pub open spec fn saturated(n: nat) -> u64 {
    if n <= u64::MAX {
        n as u64
    } else {
        u64::MAX
    }
}

/// How many resources the run created and destroyed, saturated to `u64`.
pub fn resource_counts(state: &RunState) -> (r: (u64, u64))
    ensures
        r.0 == saturated(resource_totals(state.scenarios@).0),
        r.1 == saturated(resource_totals(state.scenarios@).1),
{
    let mut created: u64 = 0;
    let mut destroyed: u64 = 0;
    let mut i: usize = 0;
    while i < state.scenarios.len()
        invariant
            i <= state.scenarios@.len(),
            created == saturated(resource_totals(state.scenarios@.take(i as int)).0),
            destroyed == saturated(resource_totals(state.scenarios@.take(i as int)).1),
        decreases state.scenarios.len() - i,
    {
        assert(state.scenarios@.take(i + 1).drop_last() =~= state.scenarios@.take(i as int));
        let rs = &state.scenarios[i].resources.resources;
        let c = rs.len() as u64;
        let d = count_destroyed(rs) as u64;
        created = created.saturating_add(c);
        destroyed = destroyed.saturating_add(d);
        i = i + 1;
    }
    assert(state.scenarios@.take(state.scenarios@.len() as int) =~= state.scenarios@);
    (created, destroyed)
}

/// The run summary line.
pub open spec fn summary_text(
    run_id: Seq<char>,
    created: u64,
    destroyed: u64,
    outcome: RunOutcome,
) -> Seq<char> {
    "summary: run "@ + run_id + ", created "@ + decimal(created as nat) + " resource(s), destroyed "@
        + decimal(destroyed as nat) + " resource(s), "@ + decimal(outcome.execution_errors as nat)
        + " error(s), "@ + decimal(outcome.verifier_failures as nat) + " verifier failure(s)"@
}

/// The run summary line.
pub fn summary_line(state: &RunState, outcome: &RunOutcome) -> (r: String)
    ensures
        r@ == summary_text(
            state.run_id@,
            saturated(resource_totals(state.scenarios@).0),
            saturated(resource_totals(state.scenarios@).1),
            *outcome,
        ),
{
    let (created, destroyed) = resource_counts(state);
    let mut r = String::new();
    r.append("summary: run ");
    r.append(state.run_id.as_str());
    r.append(", created ");
    r.append(decimal_string(created).as_str());
    r.append(" resource(s), destroyed ");
    r.append(decimal_string(destroyed).as_str());
    r.append(" resource(s), ");
    r.append(decimal_string(outcome.execution_errors as u64).as_str());
    r.append(" error(s), ");
    r.append(decimal_string(outcome.verifier_failures as u64).as_str());
    r.append(" verifier failure(s)");
    r
}


// ---------------------------------------------------------------------------
// Replaying a persisted run.
/// The phases reported before a scenario's children, in order.
pub open spec fn front_phases() -> Seq<LifecyclePhase> {
    seq![
        LifecyclePhase::Dependency,
        LifecyclePhase::Create,
        LifecyclePhase::Prepare,
        LifecyclePhase::Converge,
        LifecyclePhase::Idempotence,
        LifecyclePhase::Verify,
    ]
}

/// The phases reported after a scenario's children, in order.
pub open spec fn back_phases() -> Seq<LifecyclePhase> {
    seq![LifecyclePhase::Cleanup, LifecyclePhase::Destroy]
}

/// The result lines of the recorded phases among `phases`, in order.
pub open spec fn phase_lines(
    path: Seq<char>,
    v: ScenarioView,
    phases: Seq<LifecyclePhase>,
    styled: bool,
) -> Seq<Seq<char>>
    decreases phases.len(),
{
    if phases.len() == 0 {
        seq![]
    } else {
        phase_lines(path, v, phases.drop_last(), styled) + match v.phases.at(phases.last()) {
            Some(s) => seq![result_text(path, phases.last(), s.status, Some(v), styled)],
            None => seq![],
        }
    }
}

/// The paths of the scenarios in `s` whose parent is `parent`, in order.
pub open spec fn children_in(s: Seq<ScenarioState>, parent: Seq<char>) -> Seq<Seq<char>>
    decreases s.len(),
{
    if s.len() == 0 {
        seq![]
    } else {
        children_in(s.drop_last(), parent) + if crate::state::opt_chars(s.last().parent_path)
            == Some(parent) {
            seq![s.last().path@]
        } else {
            seq![]
        }
    }
}

/// Whether a scenario state starts a report: it has no parent, or its
/// parent was never entered.
pub open spec fn is_root(st: RunState, sc: ScenarioState) -> bool {
    match sc.parent_path {
        None => true,
        Some(parent) => !st.entered(parent@),
    }
}

/// The paths of the scenarios in `s` that start a report, in order.
pub open spec fn roots_in(st: RunState, s: Seq<ScenarioState>) -> Seq<Seq<char>>
    decreases s.len(),
{
    if s.len() == 0 {
        seq![]
    } else {
        roots_in(st, s.drop_last()) + if is_root(st, s.last()) {
            seq![s.last().path@]
        } else {
            seq![]
        }
    }
}

/// Whether a persisted scenario, or anything below it, failed: a phase
/// left pending, running or failed, or an error recorded at or below it.
pub open spec fn persisted_error(st: RunState, path: Seq<char>) -> bool {
    ||| exists|i: int|
        0 <= i < st.scenarios@.len() && same_or_below((#[trigger] st.scenarios@[i]).path@, path)
            && st.scenarios@[i].phases.any_unsettled()
    ||| st.primary_error matches Some(e) && same_or_below(e.scenario_path@, path)
    ||| exists|i: int|
        0 <= i < st.cleanup_errors@.len() && same_or_below(
            (#[trigger] st.cleanup_errors@[i]).scenario_path@,
            path,
        )
}

/// The report of the scenario at `path` and, `depth` levels deep, of the
/// scenarios below it: the entrance line, the results of the phases before
/// the children, the children's reports, the results of cleanup and
/// destroy, and the verdict.
pub open spec fn scenario_report(st: RunState, path: Seq<char>, depth: nat, styled: bool) -> Seq<
    Seq<char>,
>
    decreases depth, 0int, 0int,
{
    let v = st.scenario(path)->0;
    seq![entrance_text(path, styled)] + phase_lines(path, v, front_phases(), styled) + (if depth
        == 0 {
        seq![]
    } else {
        paths_report(st, children_in(st.scenarios@, path), (depth - 1) as nat, styled)
    }) + phase_lines(path, v, back_phases(), styled) + seq![
        verdict_text(path, verdict_of(st, path, persisted_error(st, path)), styled),
    ]
}

/// The reports of the scenarios at `paths`, in order.
pub open spec fn paths_report(st: RunState, paths: Seq<Seq<char>>, depth: nat, styled: bool) -> Seq<
    Seq<char>,
>
    decreases depth, 1int, paths.len(),
{
    if paths.len() == 0 {
        seq![]
    } else {
        paths_report(st, paths.drop_last(), depth, styled) + scenario_report(
            st,
            paths.last(),
            depth,
            styled,
        )
    }
}

/// The number of failed tests recorded in `s`.
pub open spec fn failed_tests(s: Seq<ScenarioState>) -> nat
    decreases s.len(),
{
    if s.len() == 0 {
        0
    } else {
        failed_tests(s.drop_last()) + fails_in(s.last().test_results@)
    }
}

pub open spec fn fails_in(r: Seq<crate::state::SuiteResult>) -> nat
    decreases r.len(),
{
    if r.len() == 0 {
        0
    } else {
        fails_in(r.drop_last()) + if r.last().status == VerifierStatus::Fail {
            1nat
        } else {
            0nat
        }
    }
}

/// The outcome a persisted run reports: its failed tests, and one error
/// when anything failed or never finished.
pub open spec fn persisted_outcome_of(st: RunState) -> RunOutcome {
    RunOutcome {
        verifier_failures: if failed_tests(st.scenarios@) <= usize::MAX {
            failed_tests(st.scenarios@) as usize
        } else {
            usize::MAX
        },
        execution_errors: if st.primary_error is Some || st.cleanup_errors@.len() > 0 || exists|
            i: int,
        |
            0 <= i < st.scenarios@.len() && (#[trigger] st.scenarios@[i]).phases.any_unsettled() {
            1
        } else {
            0
        },
    }
}

/// The whole replayed report of a persisted run: each starting scenario's
/// report, in path order, then the summary line.
pub open spec fn state_report(st: RunState, styled: bool) -> Seq<Seq<char>> {
    paths_report(st, roots_in(st, st.scenarios@), st.scenarios@.len(), styled) + seq![
        summary_text(
            st.run_id@,
            saturated(resource_totals(st.scenarios@).0),
            saturated(resource_totals(st.scenarios@).1),
            persisted_outcome_of(st),
        ),
    ]
}

/// The replayed report of a persisted run ends with its summary line, after
/// the reports of its scenarios; a run that entered no scenario reports its
/// summary alone.
pub proof fn lemma_report_ends_with_summary(st: RunState, styled: bool)
    ensures
        state_report(st, styled).len() >= 1,
        state_report(st, styled).last() == summary_text(
            st.run_id@,
            saturated(resource_totals(st.scenarios@).0),
            saturated(resource_totals(st.scenarios@).1),
            persisted_outcome_of(st),
        ),
        st.scenarios@.len() == 0 ==> state_report(st, styled).len() == 1,
{
    if st.scenarios@.len() == 0 {
        assert(roots_in(st, st.scenarios@) =~= seq![]);
    }
}

/// The scenarios that start a report come in increasing path order, and
/// each is a scenario of the state.
pub proof fn lemma_roots_in_order(st: RunState, s: Seq<ScenarioState>)
    requires
        crate::state::sorted_paths(s),
    ensures
        forall|i: int, j: int|
            0 <= i < j < roots_in(st, s).len() ==> crate::state::lex_less(
                #[trigger] roots_in(st, s)[i],
                #[trigger] roots_in(st, s)[j],
            ),
        forall|i: int|
            0 <= i < roots_in(st, s).len() ==> exists|k: int|
                0 <= k < s.len() && (#[trigger] s[k]).path@ == #[trigger] roots_in(st, s)[i],
    decreases s.len(),
{
    if s.len() > 0 {
        let d = s.drop_last();
        lemma_roots_in_order(st, d);
        let r = roots_in(st, d);
        assert forall|i: int| 0 <= i < r.len() implies exists|k: int|
            0 <= k < s.len() && (#[trigger] s[k]).path@ == #[trigger] r[i] by {
            let k = choose|k: int| 0 <= k < d.len() && (#[trigger] d[k]).path@ == r[i];
            assert(s[k] == d[k]);
        }
        if is_root(st, s.last()) {
            let t = roots_in(st, s);
            assert(t == r.push(s.last().path@));
            assert forall|i: int, j: int| 0 <= i < j < t.len() implies crate::state::lex_less(
                #[trigger] t[i],
                #[trigger] t[j],
            ) by {
                if j == r.len() {
                    let k = choose|k: int| 0 <= k < d.len() && (#[trigger] d[k]).path@ == r[i];
                    assert(s[k] == d[k]);
                    assert(crate::state::lex_less(s[k].path@, s[s.len() - 1].path@));
                }
            }
            assert forall|i: int| 0 <= i < t.len() implies exists|k: int|
                0 <= k < s.len() && (#[trigger] s[k]).path@ == #[trigger] t[i] by {
                if i == r.len() {
                    assert(s[s.len() - 1].path@ == t[i]);
                } else {
                    assert(t[i] == r[i]);
                }
            }
        } else {
            assert(roots_in(st, s) =~= r);
        }
    }
}

/// The children of a scenario come in increasing path order, and each is a
/// scenario of the state.
pub proof fn lemma_children_in_order(s: Seq<ScenarioState>, parent: Seq<char>)
    requires
        crate::state::sorted_paths(s),
    ensures
        forall|i: int, j: int|
            0 <= i < j < children_in(s, parent).len() ==> crate::state::lex_less(
                #[trigger] children_in(s, parent)[i],
                #[trigger] children_in(s, parent)[j],
            ),
        forall|i: int|
            0 <= i < children_in(s, parent).len() ==> exists|k: int|
                0 <= k < s.len() && (#[trigger] s[k]).path@ == #[trigger] children_in(s, parent)[i],
    decreases s.len(),
{
    if s.len() > 0 {
        let d = s.drop_last();
        lemma_children_in_order(d, parent);
        let r = children_in(d, parent);
        assert forall|i: int| 0 <= i < r.len() implies exists|k: int|
            0 <= k < s.len() && (#[trigger] s[k]).path@ == #[trigger] r[i] by {
            let k = choose|k: int| 0 <= k < d.len() && (#[trigger] d[k]).path@ == r[i];
            assert(s[k] == d[k]);
        }
        if crate::state::opt_chars(s.last().parent_path) == Some(parent) {
            let t = children_in(s, parent);
            assert(t == r.push(s.last().path@));
            assert forall|i: int, j: int| 0 <= i < j < t.len() implies crate::state::lex_less(
                #[trigger] t[i],
                #[trigger] t[j],
            ) by {
                if j == r.len() {
                    let k = choose|k: int| 0 <= k < d.len() && (#[trigger] d[k]).path@ == r[i];
                    assert(s[k] == d[k]);
                    assert(crate::state::lex_less(s[k].path@, s[s.len() - 1].path@));
                }
            }
            assert forall|i: int| 0 <= i < t.len() implies exists|k: int|
                0 <= k < s.len() && (#[trigger] s[k]).path@ == #[trigger] t[i] by {
                if i == r.len() {
                    assert(s[s.len() - 1].path@ == t[i]);
                } else {
                    assert(t[i] == r[i]);
                }
            }
        } else {
            assert(children_in(s, parent) =~= r);
        }
    }
}

/// Without an error, a scenario's verdict is `passed` exactly when some
/// recorded phase of it passed, and `skipped` otherwise; with one it is
/// `error`.
pub proof fn lemma_verdict_law(st: RunState, path: Seq<char>, had_error: bool)
    ensures
        had_error ==> verdict_of(st, path, had_error) == "error"@,
        !had_error ==> (verdict_of(st, path, had_error) == "passed"@ <==> (st.scenario(path) is Some
            && exists|q: LifecyclePhase|
            #[trigger] st.scenario(path)->0.phases.at(q) matches Some(s) && s.status == PhaseStatus::Pass)),
        !had_error ==> (verdict_of(st, path, had_error) == "skipped"@ <==> !(st.scenario(path) is Some
            && exists|q: LifecyclePhase|
            #[trigger] st.scenario(path)->0.phases.at(q) matches Some(s) && s.status == PhaseStatus::Pass)),
{
    reveal_strlit("passed");
    reveal_strlit("skipped");
    assert("passed"@ != "skipped"@) by {
        assert("passed"@[0] != "skipped"@[0]);
    }
}

/// The report of a scenario is one block: it opens with the scenario's
/// entrance line and closes with its verdict line.
pub proof fn lemma_scenario_block(st: RunState, path: Seq<char>, depth: nat, styled: bool)
    ensures
        scenario_report(st, path, depth, styled).len() >= 2,
        scenario_report(st, path, depth, styled)[0] == entrance_text(path, styled),
        scenario_report(st, path, depth, styled).last() == verdict_text(
            path,
            verdict_of(st, path, persisted_error(st, path)),
            styled,
        ),
{
}

pub open spec fn lines_of(v: Seq<String>) -> Seq<Seq<char>> {
    v.map_values(|l: String| l@)
}

/// Whether the persisted scenario at `path`, or anything below it, failed.
pub fn persisted_scenario_has_error(state: &RunState, path: &str) -> (r: bool)
    ensures
        r == persisted_error(*state, path@),
{
    let mut i: usize = 0;
    while i < state.scenarios.len()
        invariant
            i <= state.scenarios@.len(),
            forall|j: int|
                0 <= j < i ==> !(same_or_below((#[trigger] state.scenarios@[j]).path@, path@)
                    && state.scenarios@[j].phases.any_unsettled()),
        decreases state.scenarios.len() - i,
    {
        if is_same_or_descendant(state.scenarios[i].path.as_str(), path) && any_phase_unsettled(
            &state.scenarios[i].phases,
        ) {
            return true;
        }
        i = i + 1;
    }
    match &state.primary_error {
        Some(e) => if is_same_or_descendant(e.scenario_path.as_str(), path) {
            return true;
        },
        None => {},
    }
    let mut j: usize = 0;
    while j < state.cleanup_errors.len()
        invariant
            j <= state.cleanup_errors@.len(),
            !(exists|i: int|
                0 <= i < state.scenarios@.len() && same_or_below(
                    (#[trigger] state.scenarios@[i]).path@,
                    path@,
                ) && state.scenarios@[i].phases.any_unsettled()),
            !(state.primary_error matches Some(e) && same_or_below(e.scenario_path@, path@)),
            forall|m: int|
                0 <= m < j ==> !same_or_below(
                    (#[trigger] state.cleanup_errors@[m]).scenario_path@,
                    path@,
                ),
        decreases state.cleanup_errors.len() - j,
    {
        if is_same_or_descendant(state.cleanup_errors[j].scenario_path.as_str(), path) {
            return true;
        }
        j = j + 1;
    }
    false
}

/// The outcome a persisted run reports.
pub fn persisted_outcome(state: &RunState) -> (r: RunOutcome)
    ensures
        r == persisted_outcome_of(*state),
{
    let mut failures: usize = 0;
    let mut unsettled = false;
    let mut i: usize = 0;
    while i < state.scenarios.len()
        invariant
            i <= state.scenarios@.len(),
            failures == (if failed_tests(state.scenarios@.take(i as int)) <= usize::MAX {
                failed_tests(state.scenarios@.take(i as int)) as usize
            } else {
                usize::MAX
            }),
            unsettled == exists|j: int|
                0 <= j < i && (#[trigger] state.scenarios@[j]).phases.any_unsettled(),
        decreases state.scenarios.len() - i,
    {
        assert(state.scenarios@.take(i + 1).drop_last() =~= state.scenarios@.take(i as int));
        let results = &state.scenarios[i].test_results;
        let ghost base = failed_tests(state.scenarios@.take(i as int));
        let mut j: usize = 0;
        while j < results.len()
            invariant
                i < state.scenarios@.len(),
                *results == state.scenarios@[i as int].test_results,
                j <= results@.len(),
                base == failed_tests(state.scenarios@.take(i as int)),
                failures == (if base + fails_in(results@.take(j as int)) <= usize::MAX {
                    (base + fails_in(results@.take(j as int))) as usize
                } else {
                    usize::MAX
                }),
            decreases results.len() - j,
        {
            assert(results@.take(j + 1).drop_last() =~= results@.take(j as int));
            if results[j].status == VerifierStatus::Fail {
                failures = failures.saturating_add(1);
            }
            j = j + 1;
        }
        assert(results@.take(results@.len() as int) =~= results@);
        if any_phase_unsettled(&state.scenarios[i].phases) {
            unsettled = true;
        }
        i = i + 1;
    }
    assert(state.scenarios@.take(state.scenarios@.len() as int) =~= state.scenarios@);
    let errors: usize = if state.primary_error.is_some() || state.cleanup_errors.len() > 0 || unsettled {
        1
    } else {
        0
    };
    RunOutcome { verifier_failures: failures, execution_errors: errors }
}


/// Appends the result lines of the recorded phases among `phases`.
fn push_phase_lines(
    path: &str,
    scenario: &ScenarioState,
    phases: &Vec<LifecyclePhase>,
    styled_output: bool,
    out: &mut Vec<String>,
)
    ensures
        lines_of(final(out)@) == lines_of(old(out)@) + phase_lines(
            path@,
            scenario@,
            phases@,
            styled_output,
        ),
{
    let mut i: usize = 0;
    while i < phases.len()
        invariant
            i <= phases@.len(),
            lines_of(out@) == lines_of(old(out)@) + phase_lines(
                path@,
                scenario@,
                phases@.take(i as int),
                styled_output,
            ),
        decreases phases.len() - i,
    {
        let ghost before = lines_of(out@);
        assert(phases@.take(i + 1).drop_last() =~= phases@.take(i as int));
        assert(phases@.take(i + 1).last() == phases@[i as int]);
        match scenario.phases.get(phases[i]) {
            Some(ps) => {
                out.push(
                    phase_result_line(path, phases[i], ps.status, Some(scenario), styled_output),
                );
                assert(lines_of(out@) =~= before.push(out@.last()@));
            },
            None => {},
        }
        i = i + 1;
    }
    assert(phases@.take(phases@.len() as int) =~= phases@);
}

fn front_phase_list() -> (r: Vec<LifecyclePhase>)
    ensures
        r@ == front_phases(),
{
    let mut r = Vec::new();
    r.push(LifecyclePhase::Dependency);
    r.push(LifecyclePhase::Create);
    r.push(LifecyclePhase::Prepare);
    r.push(LifecyclePhase::Converge);
    r.push(LifecyclePhase::Idempotence);
    r.push(LifecyclePhase::Verify);
    assert(r@ =~= front_phases());
    r
}

fn back_phase_list() -> (r: Vec<LifecyclePhase>)
    ensures
        r@ == back_phases(),
{
    let mut r = Vec::new();
    r.push(LifecyclePhase::Cleanup);
    r.push(LifecyclePhase::Destroy);
    assert(r@ =~= back_phases());
    r
}

/// The scenario state at position `k` is the one at its path.
proof fn lemma_scenario_at(state: RunState, k: int)
    requires
        state.wf(),
        0 <= k < state.scenarios@.len(),
    ensures
        state.scenario(state.scenarios@[k].path@) == Some(state.scenarios@[k]@),
{
    let path = state.scenarios@[k].path@;
    assert(state.entered(path));
    let m = crate::state::position(state.scenarios@, path)->0;
    crate::state::lemma_sorted_distinct(state.scenarios@, k, m);
}

/// Appends the reports of the children of `path`, in path order.
fn render_children(
    state: &RunState,
    path: &str,
    depth: usize,
    styled_output: bool,
    out: &mut Vec<String>,
)
    requires
        state.wf(),
    ensures
        lines_of(final(out)@) == lines_of(old(out)@) + paths_report(
            *state,
            children_in(state.scenarios@, path@),
            depth as nat,
            styled_output,
        ),
    decreases depth, 1int,
{
    let ghost base = lines_of(out@);
    let mut j: usize = 0;
    assert(state.scenarios@.take(0) =~= seq![]);
    assert(lines_of(out@) =~= base + seq![]);
    while j < state.scenarios.len()
        invariant
            state.wf(),
            j <= state.scenarios@.len(),
            lines_of(out@) == base + paths_report(
                *state,
                children_in(state.scenarios@.take(j as int), path@),
                depth as nat,
                styled_output,
            ),
        decreases state.scenarios.len() - j,
    {
        let ghost prefix = state.scenarios@.take(j as int);
        assert(state.scenarios@.take(j + 1).drop_last() =~= prefix);
        assert(state.scenarios@.take(j + 1).last() == state.scenarios@[j as int]);
        let is_child = match &state.scenarios[j].parent_path {
            Some(parent) => str_eq(parent.as_str(), path),
            None => false,
        };
        if is_child {
            let ghost before = lines_of(out@);
            render_scenario(state, j, depth, styled_output, out);
            proof {
                let children = children_in(state.scenarios@.take(j + 1), path@);
                assert(children == children_in(prefix, path@).push(state.scenarios@[j as int].path@));
                assert(children.drop_last() =~= children_in(prefix, path@));
                assert(paths_report(*state, children, depth as nat, styled_output) == paths_report(
                    *state,
                    children_in(prefix, path@),
                    depth as nat,
                    styled_output,
                ) + scenario_report(*state, state.scenarios@[j as int].path@, depth as nat, styled_output));
            }
        } else {
            assert(children_in(state.scenarios@.take(j + 1), path@) == children_in(prefix, path@));
        }
        j = j + 1;
    }
    assert(state.scenarios@.take(state.scenarios@.len() as int) =~= state.scenarios@);
}

/// Appends the report of the scenario at position `k` (see
/// [`scenario_report`]).
#[verifier::rlimit(40)]
fn render_scenario(
    state: &RunState,
    k: usize,
    depth: usize,
    styled_output: bool,
    out: &mut Vec<String>,
)
    requires
        state.wf(),
        k < state.scenarios@.len(),
    ensures
        lines_of(final(out)@) == lines_of(old(out)@) + scenario_report(
            *state,
            state.scenarios@[k as int].path@,
            depth as nat,
            styled_output,
        ),
    decreases depth, 0int,
{
    let scenario = &state.scenarios[k];
    let path = scenario.path.as_str();
    proof {
        lemma_scenario_at(*state, k as int);
    }
    let ghost v = scenario@;
    let ghost base = lines_of(out@);
    out.push(scenario_entrance(path, styled_output));
    assert(lines_of(out@) =~= base + seq![entrance_text(path@, styled_output)]);
    let front = front_phase_list();
    push_phase_lines(path, scenario, &front, styled_output, out);
    let ghost after_front = lines_of(out@);
    let ghost children: Seq<Seq<char>> = if depth == 0 {
        seq![]
    } else {
        paths_report(*state, children_in(state.scenarios@, path@), (depth - 1) as nat, styled_output)
    };
    if depth > 0 {
        render_children(state, path, depth - 1, styled_output, out);
    } else {
        assert(lines_of(out@) =~= after_front + children);
    }
    let ghost after_children = lines_of(out@);
    let back = back_phase_list();
    push_phase_lines(path, scenario, &back, styled_output, out);
    let ghost after_back = lines_of(out@);
    let has_error = persisted_scenario_has_error(state, path);
    out.push(scenario_verdict_line(state, path, has_error, styled_output));
    let ghost verdict = verdict_text(path@, verdict_of(*state, path@, persisted_error(*state, path@)), styled_output);
    assert(lines_of(out@) =~= after_back.push(verdict));
    proof {
        assert(state.scenario(path@)->0 == v);
        let front_lines = phase_lines(path@, v, front_phases(), styled_output);
        let back_lines = phase_lines(path@, v, back_phases(), styled_output);
        assert(after_front == base + seq![entrance_text(path@, styled_output)] + front_lines);
        assert(after_children == after_front + children);
        assert(after_back == after_children + back_lines);
        assert(scenario_report(*state, path@, depth as nat, styled_output) == seq![entrance_text(path@, styled_output)] + front_lines + children + back_lines + seq![verdict]);
        assert(lines_of(out@) =~= base + (seq![entrance_text(path@, styled_output)] + front_lines + children + back_lines + seq![verdict]));
    }
}

/// Replays the report of a persisted run from its state alone: the report
/// of every scenario that starts one (it has no entered parent), in path
/// order, each with the scenarios below it, then the summary line.
pub fn render_state_report(state: &RunState, styled_output: bool) -> (r: Vec<String>)
    requires
        state.wf(),
    ensures
        lines_of(r@) == state_report(*state, styled_output),
{
    let mut out: Vec<String> = Vec::new();
    let depth = state.scenarios.len();
    let mut k: usize = 0;
    assert(lines_of(out@) =~= seq![]);
    assert(state.scenarios@.take(0) =~= seq![]);
    while k < state.scenarios.len()
        invariant
            state.wf(),
            depth == state.scenarios@.len(),
            k <= state.scenarios@.len(),
            lines_of(out@) == paths_report(
                *state,
                roots_in(*state, state.scenarios@.take(k as int)),
                depth as nat,
                styled_output,
            ),
        decreases state.scenarios.len() - k,
    {
        let ghost prefix = state.scenarios@.take(k as int);
        assert(state.scenarios@.take(k + 1).drop_last() =~= prefix);
        assert(state.scenarios@.take(k + 1).last() == state.scenarios@[k as int]);
        let root = match &state.scenarios[k].parent_path {
            None => true,
            Some(parent) => state.find(parent.as_str()).is_none(),
        };
        assert(root == is_root(*state, state.scenarios@[k as int]));
        if root {
            render_scenario(state, k, depth, styled_output, &mut out);
            proof {
                let roots = roots_in(*state, state.scenarios@.take(k + 1));
                assert(roots.drop_last() =~= roots_in(*state, prefix));
            }
        }
        k = k + 1;
    }
    assert(state.scenarios@.take(state.scenarios@.len() as int) =~= state.scenarios@);
    let outcome = persisted_outcome(state);
    let ghost before = lines_of(out@);
    out.push(summary_line(state, &outcome));
    assert(lines_of(out@) =~= before.push(out@.last()@));
    out
}

} // verus!

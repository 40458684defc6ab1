use std::cell::RefCell;
use std::collections::BTreeMap;
use std::rc::Rc;

use cvd::config::{Config, ConfigSource, PhaseDefinition, Test};
use cvd::converger::DummyConverger;
use cvd::keep::KeepMode;
use cvd::lifecycle::{Journal, LifecycleError, LifecycleRunner};
use cvd::provisioner::{DummyProvisioner, Provisioner, ProvisionerError};
use cvd::report::render_state_report;
use cvd::state::{
    LifecyclePhase, PhaseStatus, Resource, ResourceManifest, RunState, VerifierStatus,
};
use cvd::value::{Entry, Number, Value};
use cvd::verifiers::{DummyVerifier, Verifier, VerifierError};

const CONFIG: &str = r#"
version: 1
converger: dummy
verifier: dummy
scenarios:
  default:
    create:
      dummy:
    prepare:
      dummy:
    converge:
      dummy:
    cleanup:
      dummy:
    destroy:
      dummy:
    verify:
      smoke: {}
    nested:
      - name: restart
        create:
          dummy:
        converge:
          dummy:
        destroy:
          dummy:
        verify:
          after-restart: {}
        nested:
          - name: deep
            create:
              dummy:
            verify:
            destroy:
              dummy:
      - name: ignored
        create:
          dummy:
        verify:
        destroy:
          dummy:
  independent:
    create:
      dummy:
    verify:
    destroy:
      dummy:
"#;

fn from_yaml(value: serde_yaml::Value) -> Value {
    match value {
        serde_yaml::Value::Null => Value::Null,
        serde_yaml::Value::Bool(b) => Value::Bool(b),
        serde_yaml::Value::Number(n) => Value::Number(if let Some(u) = n.as_u64() {
            Number::Unsigned(u)
        } else if let Some(i) = n.as_i64() {
            Number::Negative(i)
        } else {
            Number::Other(n.to_string())
        }),
        serde_yaml::Value::String(s) => Value::String(s),
        serde_yaml::Value::Sequence(items) => {
            Value::Sequence(items.into_iter().map(from_yaml).collect())
        }
        serde_yaml::Value::Mapping(mapping) => Value::Mapping(
            mapping
                .into_iter()
                .map(|(key, value)| Entry { key: from_yaml(key), value: from_yaml(value) })
                .collect(),
        ),
        serde_yaml::Value::Tagged(tagged) => {
            let tagged = *tagged;
            Value::Tagged(tagged.tag.to_string(), Box::new(from_yaml(tagged.value)))
        }
    }
}

/// Files held in memory.
struct MemorySource(BTreeMap<String, String>);

impl ConfigSource for MemorySource {
    fn canonicalize(&self, path: &str) -> Result<String, String> {
        if self.0.contains_key(path) {
            Ok(path.to_owned())
        } else {
            Err(format!("{path}: not found"))
        }
    }

    fn is_file(&self, path: &str) -> bool {
        self.0.contains_key(path)
    }

    fn read_to_string(&self, path: &str) -> Result<String, String> {
        self.0.get(path).cloned().ok_or_else(|| format!("{path}: not found"))
    }

    fn parse_yaml(&self, text: &str) -> Result<Value, String> {
        serde_yaml::from_str::<serde_yaml::Value>(text)
            .map(from_yaml)
            .map_err(|error| error.to_string())
    }
}

fn config(text: &str) -> Config {
    Config::from_yaml_at(&MemorySource(BTreeMap::new()), text, "/project/cvd.yml")
        .ok()
        .expect("configuration loads")
}

#[derive(Clone, Default)]
struct MemoryJournal {
    lines: Rc<RefCell<Vec<String>>>,
    saves: Rc<RefCell<usize>>,
}

impl Journal for MemoryJournal {
    fn save(&mut self, _: &RunState) -> Result<(), String> {
        *self.saves.borrow_mut() += 1;
        Ok(())
    }

    fn write_line(&mut self, line: &str) -> Result<(), String> {
        self.lines.borrow_mut().push(line.to_owned());
        Ok(())
    }

    fn write_inventory_view(&mut self, scenario_path: &str, _: &Value) -> Result<String, String> {
        Ok(format!("/views/{scenario_path}/ansible-inventory.yml"))
    }
}

impl MemoryJournal {
    fn output(&self) -> String {
        self.lines.borrow().iter().map(|line| format!("{line}\n")).collect()
    }
}

fn state(selector: Option<&str>, keep: bool) -> RunState {
    RunState::new(
        "test-run",
        "/project/cvd.yml",
        "fingerprint",
        selector.map(str::to_owned),
        keep,
    )
}

fn paths(state: &RunState) -> Vec<&str> {
    state.scenarios.iter().map(|s| s.path.as_str()).collect()
}

fn status(state: &RunState, path: &str, phase: LifecyclePhase) -> Option<PhaseStatus> {
    let k = state.find(path)?;
    state.scenarios[k].phases.get(phase).map(|p| p.status)
}

struct RecordingProvisioner(RefCell<Vec<String>>);

impl Provisioner for RecordingProvisioner {
    fn create(&self, scenario_path: &str, _: &PhaseDefinition) -> Result<ResourceManifest, ProvisionerError> {
        self.0.borrow_mut().push(format!("create:{scenario_path}"));
        Ok(ResourceManifest { resources: Vec::new() })
    }

    fn destroy(
        &self,
        scenario_path: &str,
        _: &ResourceManifest,
        _: &PhaseDefinition,
    ) -> Result<(), ProvisionerError> {
        self.0.borrow_mut().push(format!("destroy:{scenario_path}"));
        Ok(())
    }
}

struct FailingCreateProvisioner(RefCell<Vec<String>>);

impl Provisioner for FailingCreateProvisioner {
    fn create(&self, scenario_path: &str, _: &PhaseDefinition) -> Result<ResourceManifest, ProvisionerError> {
        self.0.borrow_mut().push(format!("create:{scenario_path}"));
        Err(ProvisionerError("create failed".to_owned()))
    }

    fn destroy(
        &self,
        scenario_path: &str,
        _: &ResourceManifest,
        _: &PhaseDefinition,
    ) -> Result<(), ProvisionerError> {
        self.0.borrow_mut().push(format!("destroy:{scenario_path}"));
        Ok(())
    }
}

struct ErrorStatusVerifier;

impl Verifier for ErrorStatusVerifier {
    fn verify(
        &self,
        _: &str,
        _: &str,
        _: &Test,
        _: Option<&str>,
        _: &Vec<&Resource>,
    ) -> Result<VerifierStatus, VerifierError> {
        Ok(VerifierStatus::Error)
    }
}

#[test]
fn styled_state_report_uses_live_colors_and_reports_running_phases() {
    let mut run_state = state(Some("empty"), false);
    run_state.enter_scenario("empty", None);
    run_state.complete_phase("empty", LifecyclePhase::Prepare, PhaseStatus::Skipped);
    run_state.complete_phase("empty", LifecyclePhase::Create, PhaseStatus::Pass);
    run_state.mark_phase_running("empty", LifecyclePhase::Converge);

    let report: String = render_state_report(&run_state, true)
        .iter()
        .map(|line| format!("{line}\n"))
        .collect();
    assert!(report.contains("\x1b[1mScenario: empty\x1b[0m\n"));
    assert!(report.contains("\x1b[90mempty::prepare skipped\x1b[0m\n"));
    assert!(report.contains("\x1b[32mempty::create: 0 resource added\x1b[0m\n"));
    assert!(report.contains("empty::converge running\x1b[0m\n"));
    assert!(report.contains("\x1b[31m\x1b[1mScenario: empty: error\x1b[0m\n"));
}

#[test]
fn nested_selection_runs_only_ancestor_setup_and_selected_subtree() {
    let config = config(CONFIG);
    let journal = MemoryJournal::default();
    let (outcome, state) = LifecycleRunner::new(
        &config,
        state(Some("default/restart"), false),
        &DummyProvisioner,
        &DummyConverger,
        &DummyVerifier,
        journal.clone(),
    )
    .run(Some("default/restart"))
    .ok()
    .unwrap();
    assert!(outcome.succeeded());
    assert_eq!(paths(&state), ["default", "default/restart", "default/restart/deep"]);
    assert_eq!(status(&state, "default", LifecyclePhase::Verify), Some(PhaseStatus::Skipped));
    let restart = state.find("default/restart").unwrap();
    assert_eq!(state.scenarios[restart].test_results[0].status, VerifierStatus::Pass);
    for scenario in &state.scenarios {
        assert_eq!(scenario.resources.resources.len(), 1);
        let resource = &scenario.resources.resources[0];
        assert_eq!(resource.id, "mock");
        assert_eq!(resource.resource_type, "mock");
        assert!(!resource.exists);
        assert_eq!(resource.created.scenario_path, scenario.path);
        assert_eq!(resource.created.phase, LifecyclePhase::Create);
        let destroyed = resource.destroyed.as_ref().unwrap();
        assert_eq!(destroyed.scenario_path, scenario.path);
        assert_eq!(destroyed.phase, LifecyclePhase::Destroy);
    }
    assert!(*journal.saves.borrow() > 0);
}

#[test]
fn run_output_is_grouped_by_scenario_and_ends_with_a_summary() {
    let config = config(CONFIG);
    let journal = MemoryJournal::default();
    LifecycleRunner::new(
        &config,
        state(Some("default/restart"), false),
        &DummyProvisioner,
        &DummyConverger,
        &DummyVerifier,
        journal.clone(),
    )
    .run(Some("default/restart"))
    .ok()
    .unwrap();
    let output = journal.output();
    assert!(!output.contains("\x1b["));
    assert!(output.contains("Scenario: default\n"));
    assert!(output.contains("default::converge running\n"));
    assert!(output.contains("default/restart::create: 1 resource added\n"));
    assert!(output.contains("default/restart/deep::destroy: 1 resource deleted\n"));
    let child_entrance = output.find("Scenario: default/restart\n").unwrap();
    let child_verdict = output.find("Scenario: default/restart: passed\n").unwrap();
    let parent_destroy = output.rfind("default::destroy: 1 resource deleted\n").unwrap();
    let parent_verdict = output.rfind("Scenario: default: passed\n").unwrap();
    assert!(child_entrance < child_verdict);
    assert!(child_verdict < parent_destroy);
    assert!(parent_destroy < parent_verdict);
    assert!(output.ends_with(
        "summary: run test-run, created 3 resource(s), destroyed 3 resource(s), 0 error(s), 0 verifier failure(s)\n"
    ));
}

#[test]
fn state_report_replays_a_finished_run() {
    let config = config(CONFIG);
    let (_, state) = LifecycleRunner::new(
        &config,
        state(Some("default/restart"), false),
        &DummyProvisioner,
        &DummyConverger,
        &DummyVerifier,
        MemoryJournal::default(),
    )
    .run(Some("default/restart"))
    .ok()
    .unwrap();
    let report: String = render_state_report(&state, false)
        .iter()
        .map(|line| format!("{line}\n"))
        .collect();
    assert!(!report.contains("\x1b["));
    assert!(report.contains("Scenario: default\n"));
    assert!(report.contains("default::idempotence skipped\n"));
    assert!(report.contains("Scenario: default/restart/deep: passed\n"));
    assert!(report.contains("Scenario: default: passed\n"));
    let child = report.find("Scenario: default/restart\n").unwrap();
    let parent_verdict = report.rfind("Scenario: default: passed\n").unwrap();
    assert!(child < parent_verdict);
    assert!(report.ends_with(
        "summary: run test-run, created 3 resource(s), destroyed 3 resource(s), 0 error(s), 0 verifier failure(s)\n"
    ));
}

#[test]
fn styled_output_colors_skipped_lines_and_preserves_bold_entrance() {
    let config = config("version: 1\nconverger: dummy\nverifier: dummy\nscenarios:\n  empty: {}\n");
    let journal = MemoryJournal::default();
    LifecycleRunner::new(
        &config,
        state(Some("empty"), false),
        &DummyProvisioner,
        &DummyConverger,
        &DummyVerifier,
        journal.clone(),
    )
    .with_styled_output(true)
    .run(Some("empty"))
    .ok()
    .unwrap();
    let output = journal.output();
    assert_eq!(output.matches("\x1b[1mScenario: empty\x1b[0m").count(), 1);
    assert!(output.contains("\x1b[90mempty::prepare skipped\x1b[0m\n"));
    assert!(output.contains("\x1b[90m\x1b[1mScenario: empty: skipped\x1b[0m\n"));
}

#[test]
fn styled_output_colors_passed_phase_and_scenario_lines_green() {
    let config = config(CONFIG);
    let journal = MemoryJournal::default();
    LifecycleRunner::new(
        &config,
        state(Some("independent"), false),
        &DummyProvisioner,
        &DummyConverger,
        &DummyVerifier,
        journal.clone(),
    )
    .with_styled_output(true)
    .run(Some("independent"))
    .ok()
    .unwrap();
    let output = journal.output();
    assert!(output.contains("\x1b[32mindependent::create: 1 resource added\x1b[0m\n"));
    assert!(output.contains("\x1b[32m\x1b[1mScenario: independent: passed\x1b[0m\n"));
}

#[test]
fn create_error_records_failure_and_still_unwinds() {
    let config = config(CONFIG);
    let provisioner = FailingCreateProvisioner(RefCell::new(Vec::new()));
    let journal = MemoryJournal::default();
    let (outcome, state) = LifecycleRunner::new(
        &config,
        state(Some("default"), false),
        &provisioner,
        &DummyConverger,
        &DummyVerifier,
        journal.clone(),
    )
    .with_styled_output(true)
    .run(Some("default"))
    .ok()
    .unwrap();
    assert!(!outcome.succeeded());
    assert_eq!(outcome.execution_errors, 1);
    assert_eq!(state.primary_error.as_ref().unwrap().phase, LifecyclePhase::Create);
    assert_eq!(status(&state, "default", LifecyclePhase::Cleanup), Some(PhaseStatus::Pass));
    assert_eq!(status(&state, "default", LifecyclePhase::Destroy), Some(PhaseStatus::Pass));
    assert_eq!(provisioner.0.into_inner(), ["create:default", "destroy:default"]);
    let output = journal.output();
    assert!(output.contains("\x1b[31mdefault::create error\x1b[0m\n"));
    assert!(output.contains("\x1b[31m\x1b[1mScenario: default: error\x1b[0m\n"));
}

#[test]
fn verifier_error_status_is_persisted_and_stops_normal_work() {
    let config = config(CONFIG);
    let (outcome, state) = LifecycleRunner::new(
        &config,
        state(Some("default"), false),
        &DummyProvisioner,
        &DummyConverger,
        &ErrorStatusVerifier,
        MemoryJournal::default(),
    )
    .run(Some("default"))
    .ok()
    .unwrap();
    assert!(!outcome.succeeded());
    assert_eq!(outcome.execution_errors, 1);
    assert_eq!(state.primary_error.as_ref().unwrap().phase, LifecyclePhase::Verify);
    assert_eq!(status(&state, "default", LifecyclePhase::Destroy), Some(PhaseStatus::Pass));
    assert!(state.find("default/restart").is_none());
}

#[test]
fn destroys_children_before_parents_and_keep_suppresses_destruction() {
    let config = config(CONFIG);
    let provisioner = RecordingProvisioner(RefCell::new(Vec::new()));
    LifecycleRunner::new(
        &config,
        state(Some("default/restart"), false),
        &provisioner,
        &DummyConverger,
        &DummyVerifier,
        MemoryJournal::default(),
    )
    .run(Some("default/restart"))
    .ok()
    .unwrap();
    assert_eq!(
        provisioner.0.into_inner(),
        [
            "create:default",
            "create:default/restart",
            "create:default/restart/deep",
            "destroy:default/restart/deep",
            "destroy:default/restart",
            "destroy:default",
        ]
    );

    let provisioner = RecordingProvisioner(RefCell::new(Vec::new()));
    let (_, state) = LifecycleRunner::new(
        &config,
        state(Some("default/restart"), true),
        &provisioner,
        &DummyConverger,
        &DummyVerifier,
        MemoryJournal::default(),
    )
    .run(Some("default/restart"))
    .ok()
    .unwrap();
    assert!(provisioner
        .0
        .into_inner()
        .iter()
        .all(|event| !event.starts_with("destroy:")));
    for scenario in &state.scenarios {
        assert_eq!(
            scenario.phases.get(LifecyclePhase::Destroy).map(|p| p.status),
            Some(PhaseStatus::Skipped)
        );
    }
}

#[test]
fn keep_mode_set_while_running_suppresses_destruction() {
    let config = config(CONFIG);
    let provisioner = RecordingProvisioner(RefCell::new(Vec::new()));
    let keep = KeepMode::new(true);
    let (_, state) = LifecycleRunner::new(
        &config,
        state(Some("independent"), false),
        &provisioner,
        &DummyConverger,
        &DummyVerifier,
        MemoryJournal::default(),
    )
    .with_keep_mode(keep)
    .run(Some("independent"))
    .ok()
    .unwrap();
    assert_eq!(provisioner.0.into_inner(), ["create:independent"]);
    assert!(state.keep);
}

#[test]
fn a_selector_naming_no_scenario_is_refused() {
    let config = config(CONFIG);
    let result = LifecycleRunner::new(
        &config,
        state(Some("missing"), false),
        &DummyProvisioner,
        &DummyConverger,
        &DummyVerifier,
        MemoryJournal::default(),
    )
    .run(Some("missing"));
    assert!(matches!(result, Err(LifecycleError::InvalidSelector(s)) if s == "missing"));
}

#[test]
fn running_every_scenario_enters_all_of_them() {
    let config = config(CONFIG);
    let (outcome, state) = LifecycleRunner::new(
        &config,
        state(None, false),
        &DummyProvisioner,
        &DummyConverger,
        &DummyVerifier,
        MemoryJournal::default(),
    )
    .run(None)
    .ok()
    .unwrap();
    assert!(outcome.succeeded());
    assert_eq!(
        paths(&state),
        [
            "default",
            "default/ignored",
            "default/restart",
            "default/restart/deep",
            "independent"
        ]
    );
    assert!(state.paths_in_order());
}

struct FailingVerifier;

impl Verifier for FailingVerifier {
    fn verify(
        &self,
        _: &str,
        _: &str,
        _: &Test,
        _: Option<&str>,
        _: &Vec<&Resource>,
    ) -> Result<VerifierStatus, VerifierError> {
        Ok(VerifierStatus::Fail)
    }
}

#[test]
fn failed_tests_are_counted_and_do_not_stop_the_run() {
    let config = config(CONFIG);
    let (outcome, state) = LifecycleRunner::new(
        &config,
        state(None, false),
        &DummyProvisioner,
        &DummyConverger,
        &FailingVerifier,
        MemoryJournal::default(),
    )
    .run(None)
    .ok()
    .unwrap();
    let failed = state
        .scenarios
        .iter()
        .flat_map(|s| s.test_results.iter())
        .filter(|r| matches!(r.status, VerifierStatus::Fail))
        .count();
    assert_eq!(failed, 2);
    assert_eq!(outcome.verifier_failures, 2);
    assert_eq!(outcome.execution_errors, 0);
    assert!(!outcome.succeeded());
    assert!(state.find("default").is_some());
    assert!(state.find("independent").is_some());
    assert_eq!(status(&state, "independent", LifecyclePhase::Destroy), Some(PhaseStatus::Pass));
}

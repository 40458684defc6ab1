use cvd::repository::{
    fingerprint, fingerprint_of_hash, last_run_path, pointer_text, read_pointer, resolve_run,
    run_identifier, run_state_path, RepositoryError,
};
use cvd::state::{
    check_schema_version, default_state_directory, default_state_path, ErrorRecord, LifecyclePhase,
    PhaseState, PhaseStatus, RunState, StateError, SuiteResult, VerifierStatus,
};
use cvd::terminal_styling_enabled;

fn test_state() -> RunState {
    let mut state = RunState::new(
        "run-1",
        "/project/cvd.yml",
        "configuration-sha256",
        Some("default/restart".to_owned()),
        false,
    );
    state.enter_scenario("default", None);
    state.complete_phase("default", LifecyclePhase::Dependency, PhaseStatus::Skipped);
    state.mark_phase_running("default", LifecyclePhase::Create);
    state.complete_phase("default", LifecyclePhase::Create, PhaseStatus::Pass);
    state.enter_scenario("default/restart", Some("default".to_owned()));
    state.record_suite_result(
        "default/restart",
        SuiteResult {
            name: "smoke".to_owned(),
            status: VerifierStatus::Pass,
            message: None,
            recorded_at: 0,
        },
    );
    state
}

fn phase_of(state: &RunState, path: &str, phase: LifecyclePhase) -> Option<PhaseState> {
    let k = state.find(path).expect("scenario entered");
    state.scenarios[k].phases.get(phase)
}

#[test]
fn configuration_fingerprint_changes_with_content() {
    assert_ne!(fingerprint("version: 1"), fingerprint("version: 2"));
}

#[test]
fn terminal_styling_requires_a_terminal_without_no_color() {
    assert!(terminal_styling_enabled(true, false));
    assert!(!terminal_styling_enabled(false, false));
    assert!(!terminal_styling_enabled(true, true));
}

#[test]
fn defaults_state_to_the_configuration_directory() {
    assert_eq!(default_state_path("project/cvd.yml"), "project/.cvd/state.json");
}

#[test]
fn primary_error_is_not_replaced_by_cleanup_errors() {
    let mut state = test_state();
    let primary = ErrorRecord::new("default", LifecyclePhase::Create, "create failed");
    state.record_primary_error(primary);
    state.record_primary_error(ErrorRecord::new(
        "default/restart",
        LifecyclePhase::Verify,
        "later failure",
    ));
    state.record_cleanup_error(ErrorRecord::new(
        "default",
        LifecyclePhase::Destroy,
        "destroy failed",
    ));

    let kept = state.primary_error.as_ref().expect("primary error kept");
    assert_eq!(kept.scenario_path, "default");
    assert_eq!(kept.phase, LifecyclePhase::Create);
    assert_eq!(kept.message, "create failed");
    assert_eq!(state.cleanup_errors.len(), 1);
}

#[test]
fn completing_a_running_phase_retains_its_start_timestamp() {
    let mut state = test_state();
    state.enter_scenario("another", None);
    state.mark_phase_running("another", LifecyclePhase::Create);
    let started_at = phase_of(&state, "another", LifecyclePhase::Create)
        .unwrap()
        .started_at
        .expect("running phase has a start timestamp");

    state.complete_phase("another", LifecyclePhase::Create, PhaseStatus::Pass);
    let completed = phase_of(&state, "another", LifecyclePhase::Create).unwrap();
    assert_eq!(completed.started_at, Some(started_at));
    assert!(completed.completed_at.is_some());
}

#[test]
fn entering_a_scenario_again_keeps_its_state_and_paths_stay_ordered() {
    let mut state = test_state();
    state.enter_scenario("default", None);
    assert_eq!(
        phase_of(&state, "default", LifecyclePhase::Create).unwrap().status,
        PhaseStatus::Pass
    );
    state.enter_scenario("a-first", None);
    let paths: Vec<&str> = state.scenarios.iter().map(|s| s.path.as_str()).collect();
    assert_eq!(paths, ["a-first", "default", "default/restart"]);
    assert!(state.paths_in_order());
    state.scenarios.swap(0, 1);
    assert!(!state.paths_in_order());
}

#[test]
fn default_state_directory_without_a_parent_is_the_current_one() {
    assert_eq!(default_state_directory("cvd.yml"), ".cvd");
    assert_eq!(default_state_directory("/srv/project/cvd.yml"), "/srv/project/.cvd");
}

#[test]
fn schema_versions_other_than_the_supported_one_are_rejected() {
    assert!(check_schema_version("state.json", 1).is_ok());
    assert!(matches!(
        check_schema_version("state.json", 999),
        Err(StateError::UnsupportedSchemaVersion { found: 999, supported: 1, .. })
    ));
    match check_schema_version("/srv/.cvd/runs/r/state.json", 2) {
        Err(StateError::UnsupportedSchemaVersion { path, .. }) => {
            assert_eq!(path, "/srv/.cvd/runs/r/state.json")
        }
        _ => panic!("expected an unsupported schema version"),
    }
}

#[test]
fn keep_mode_is_recorded() {
    let mut state = test_state();
    state.set_keep(true);
    assert!(state.keep);
}

#[test]
fn run_selectors_resolve_to_safe_run_ids() {
    assert_eq!(resolve_run("last", Some("run-7")).ok().unwrap(), "run-7");
    assert!(matches!(resolve_run("last", None), Err(RepositoryError::NoLastRun)));
    assert!(matches!(
        resolve_run("last", Some("../escape")),
        Err(RepositoryError::InvalidRunId(_))
    ));
    assert_eq!(resolve_run("run-123", None).ok().unwrap(), "run-123");
    for bad in ["", ".", "..", "a/b"] {
        assert!(matches!(resolve_run(bad, None), Err(RepositoryError::InvalidRunId(_))));
    }
}

#[test]
fn run_files_and_pointer_text() {
    assert_eq!(run_state_path(".cvd", "run-1"), ".cvd/runs/run-1/state.json");
    assert_eq!(last_run_path(".cvd"), ".cvd/last-run");
    assert_eq!(pointer_text("run-1"), "run-1\n");
    assert_eq!(read_pointer("run-1\n"), "run-1");
    assert_eq!(read_pointer("run-1"), "run-1");
    assert_eq!(run_identifier(42, 1700000000000, 3), "run-42-1700000000000-3");
}

#[test]
fn fingerprint_text_is_sixteen_hex_digits() {
    assert_eq!(fingerprint_of_hash(0xab), "stub-hash-00000000000000ab");
    let text = fingerprint("version: 1");
    assert!(text.starts_with("stub-hash-"));
    assert_eq!(text.len(), "stub-hash-".len() + 16);
    assert_eq!(fingerprint("version: 1"), text);
}

#[test]
fn equal_texts_have_equal_fingerprints() {
    let text = String::from("version: 1\nscenarios: {}\n");
    assert_eq!(fingerprint(&text), fingerprint(&text.clone()));
    assert_ne!(fingerprint(&text), fingerprint("version: 1\nscenarios: {}"));
}

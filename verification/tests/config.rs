use std::collections::BTreeMap;

use cvd::config::{admit_include, Config, ConfigError, ConfigSource};
use cvd::schema::{ConfiguredPhase, DummyStatus};
use cvd::value::{Entry, Number, Value};

const NESTED: &str = r#"
version: 1
provisioner: dummy
converger: dummy
verifier: dummy
scenarios:
  default:
    create:
    prepare:
      - dummy:
    converge: site.yml
    cleanup:
    destroy:
    verify:
      smoke: {}
    nested:
      - name: restart
        create:
          dummy:
        converge:
        verify:
        destroy:
        nested:
          - name: after
            create:
            verify:
            destroy:
  independent:
    create:
    verify:
    destroy:
"#;

fn from_yaml(value: serde_yaml::Value) -> Value {
    match value {
        serde_yaml::Value::Null => Value::Null,
        serde_yaml::Value::Bool(b) => Value::Bool(b),
        serde_yaml::Value::Number(n) => Value::Number(if let Some(u) = n.as_u64() {
            Number::Unsigned(u)
        } else if let Some(i) = n.as_i64() {
            Number::Negative(i)
        } else {
            Number::Other(n.to_string())
        }),
        serde_yaml::Value::String(s) => Value::String(s),
        serde_yaml::Value::Sequence(items) => {
            Value::Sequence(items.into_iter().map(from_yaml).collect())
        }
        serde_yaml::Value::Mapping(mapping) => Value::Mapping(
            mapping
                .into_iter()
                .map(|(key, value)| Entry { key: from_yaml(key), value: from_yaml(value) })
                .collect(),
        ),
        serde_yaml::Value::Tagged(tagged) => {
            let tagged = *tagged;
            Value::Tagged(tagged.tag.to_string(), Box::new(from_yaml(tagged.value)))
        }
    }
}

/// Files held in memory, by absolute path.
struct MemorySource(BTreeMap<String, String>);

impl MemorySource {
    fn new(files: &[(&str, &str)]) -> Self {
        MemorySource(
            files
                .iter()
                .map(|(path, text)| (path.to_string(), text.to_string()))
                .collect(),
        )
    }
}

impl ConfigSource for MemorySource {
    fn canonicalize(&self, path: &str) -> Result<String, String> {
        if self.0.contains_key(path) {
            Ok(path.to_owned())
        } else {
            Err(format!("{path}: No such file or directory"))
        }
    }

    fn is_file(&self, path: &str) -> bool {
        self.0.contains_key(path)
    }

    fn read_to_string(&self, path: &str) -> Result<String, String> {
        self.0
            .get(path)
            .cloned()
            .ok_or_else(|| format!("{path}: No such file or directory"))
    }

    fn parse_yaml(&self, text: &str) -> Result<Value, String> {
        serde_yaml::from_str::<serde_yaml::Value>(text)
            .map(from_yaml)
            .map_err(|error| error.to_string())
    }
}

fn load(text: &str) -> Result<Config, ConfigError> {
    Config::from_yaml(&MemorySource::new(&[]), text)
}

fn load_at(files: &[(&str, &str)], text: &str) -> Result<Config, ConfigError> {
    Config::from_yaml_at(&MemorySource::new(files), text, "/project/cvd.yml")
}

#[test]
fn parses_phase_payloads_tests_and_ordered_nested_scenarios() {
    let config = load(NESTED).ok().unwrap();
    assert_eq!(config.version(), 1);
    assert_eq!(config.converger, "dummy");
    assert_eq!(
        config.scenario_paths(),
        [
            "default",
            "default/restart",
            "default/restart/after",
            "independent"
        ]
    );
    let default = config.scenario("default").unwrap();
    assert!(default.has_phase(ConfiguredPhase::Prepare));
    assert!(matches!(
        default.phase_value(ConfiguredPhase::Converge),
        Some(Value::String(s)) if s == "site.yml"
    ));
    assert!(!config
        .scenario("default/restart")
        .unwrap()
        .has_phase(ConfiguredPhase::Prepare));
}

#[test]
fn rejects_unknown_fields_bad_names_duplicate_children_and_inline_include_content() {
    let unknown = NESTED.replacen("    create:", "    unexpected: true\n    create:", 1);
    assert!(matches!(load(&unknown), Err(ConfigError::Parse(_))));

    let bad_name = NESTED.replace("  default:", "  bad/path:");
    assert!(matches!(load(&bad_name), Err(ConfigError::InvalidScenario { .. })));

    let duplicate = NESTED.replacen(
        "      - name: restart\n",
        "      - name: restart\n        create:\n      - name: restart\n",
        1,
    );
    assert!(matches!(load(&duplicate), Err(ConfigError::InvalidScenario { .. })));

    let include_and_inline = NESTED.replacen(
        "      - name: restart\n",
        "      - name: restart\n        include: child.yml\n",
        1,
    );
    assert!(matches!(
        load(&include_and_inline),
        Err(ConfigError::IncludeWithInlineContent(_))
    ));
}

#[test]
fn rejects_unknown_implementations_and_duplicate_test_names() {
    let implementation = NESTED.replacen("converger: dummy", "converger: unknown", 1);
    assert!(matches!(load(&implementation), Err(ConfigError::InvalidDefault { .. })));

    let duplicate_test = NESTED.replacen("      smoke: {}", "      smoke: {}\n      smoke: {}", 1);
    assert!(matches!(load(&duplicate_test), Err(ConfigError::Parse(_))));

    let malformed_action = NESTED.replacen(
        "      - dummy:",
        "      - dummy:\n        other: second-action",
        1,
    );
    assert!(matches!(load(&malformed_action), Err(ConfigError::InvalidPhase { .. })));
}

#[test]
fn validates_dummy_phase_and_test_statuses() {
    let valid = NESTED
        .replacen("    create:", "    create:\n      dummy:\n        status: error", 1)
        .replacen("      smoke: {}", "      smoke:\n        status: fail", 1);
    let config = load(&valid).ok().unwrap();
    let default = config.scenario("default").unwrap();
    assert_eq!(
        default.phase(ConfiguredPhase::Create).unwrap().dummy_status(),
        DummyStatus::Error
    );
    assert_eq!(default.tests.iter()[0].1.status, DummyStatus::Fail);

    for options in ["status: fail", "status: unknown", "unknown: true"] {
        let invalid = NESTED.replacen(
            "    create:",
            &format!("    create:\n      dummy:\n        {options}"),
            1,
        );
        assert!(matches!(load(&invalid), Err(ConfigError::InvalidPhase { .. })));
    }

    let invalid_test = NESTED.replacen("      smoke: {}", "      smoke:\n        status: unknown", 1);
    assert!(matches!(load(&invalid_test), Err(ConfigError::InvalidPhase { .. })));
}

#[test]
fn verify_contains_tests_and_rejects_legacy_or_opaque_payloads() {
    let base = "version: 1\nconverger: dummy\nverifier: dummy\nscenarios:\n  root:\n";
    for value in ["    verify:\n", "    verify: {}\n"] {
        let config = load(&format!("{base}{value}")).ok().unwrap();
        let scenario = config.scenario("root").unwrap();
        assert!(scenario.has_phase(ConfiguredPhase::Verify));
        assert_eq!(scenario.tests.iter().len(), 0);
    }
    let config = load(&format!("{base}    create:\n")).ok().unwrap();
    assert!(!config.scenario("root").unwrap().has_phase(ConfiguredPhase::Verify));
    let config = load(&format!("{base}    verify:\n      z: {{}}\n      a: {{status: fail}}\n"))
        .ok()
        .unwrap();
    let names: Vec<&str> = config
        .scenario("root")
        .unwrap()
        .tests
        .iter()
        .iter()
        .map(|(name, _)| name.as_str())
        .collect();
    assert_eq!(names, ["z", "a"]);
    for value in [
        "    tests: {}\n",
        "    verify: script.py\n",
        "    verify: []\n",
        "    verify:\n      same: {}\n      same: {}\n",
        "    verify: {pytest: {path: test.py}}\n",
    ] {
        assert!(load(&format!("{base}{value}")).is_err(), "{value}");
    }
}

#[test]
fn rejects_unsupported_version() {
    let config = NESTED.replacen("version: 1", "version: 2", 1);
    assert!(matches!(load(&config), Err(ConfigError::UnsupportedVersion(2))));
}

#[test]
fn rejects_documents_that_are_not_mappings() {
    match load("- an Ansible playbook\n") {
        Err(ConfigError::InvalidDocument(reason)) => {
            assert!(reason.contains("expected a mapping at the document root, but found a sequence"))
        }
        _ => panic!("expected an invalid document"),
    }
    assert!(matches!(load(""), Err(ConfigError::InvalidDocument(_))));
    assert!(matches!(load("version: [this is not YAML\n"), Err(ConfigError::Parse(_))));
    assert!(load("version: 1\nconverger: dummy\nverifier: dummy\nscenarios: {}\n").is_ok());
    assert!(matches!(load("version: 1\nscenarios: {}\n"), Err(ConfigError::Parse(_))));
}

#[test]
fn resolves_scenario_fragment_includes_relative_to_the_including_file() {
    let yaml = NESTED.replacen(
        "      - name: restart\n        create:\n          dummy:\n        converge:\n        verify:\n        destroy:\n        nested:\n          - name: after\n            create:\n            verify:\n            destroy:\n",
        "      - name: restart\n        include: nested/child.yml\n",
        1,
    );
    let first = load_at(&[("/project/nested/child.yml", "create:\nverify:\ndestroy:\n")], &yaml)
        .ok()
        .unwrap();
    assert!(first
        .scenario("default/restart")
        .unwrap()
        .has_phase(ConfiguredPhase::Create));
    let changed = load_at(
        &[("/project/nested/child.yml", "create:\nprepare:\nverify:\ndestroy:\n")],
        &yaml,
    )
    .ok()
    .unwrap();
    assert_ne!(first.source_material(), changed.source_material());
    assert!(first.source_material().starts_with(yaml.as_str()));
}

#[test]
fn rejects_missing_and_cyclic_includes() {
    let root_yaml = "version: 1\nprovisioner: dummy\nconverger: dummy\nverifier: dummy\nscenarios:\n  default:\n    nested:\n      - name: loop\n        include: loop.yml\n";
    assert!(matches!(load_at(&[], root_yaml), Err(ConfigError::ReadInclude { .. })));
    let looping = [("/project/loop.yml", "nested:\n  - name: again\n    include: loop.yml\n")];
    assert!(matches!(load_at(&looping, root_yaml), Err(ConfigError::IncludeCycle(_))));
}

#[test]
fn validates_ansible_verifier_options() {
    let files = [("/project/verify.yml", "---\n")];
    let base = "version: 1\nconverger: dummy\nverifier: ansible\nscenarios:\n  root:\n    verify:\n      check:\n";
    let valid = format!("{base}        ansible: {{playbook: verify.yml}}\n");
    let config = load_at(&files, &valid).ok().unwrap();
    let tests = config.scenario("root").unwrap().tests.iter();
    let ansible = tests[0].1.ansible.as_ref().unwrap();
    assert_eq!(ansible.playbook, "/project/verify.yml");
    assert!(matches!(ansible.vars, Value::Mapping(_)));
    for invalid in [
        format!("{base}        status: ok\n"),
        valid.replace("verify.yml", "missing.yml"),
        valid.replace("playbook: verify.yml", "playbook: verify.yml, vars: []"),
        valid.replace("playbook: verify.yml", "playbook: verify.yml, unknown: true"),
        format!("{valid}        status: fail\n"),
        format!("{valid}        verifier: dummy\n"),
    ] {
        assert!(load_at(&files, &invalid).is_err(), "{invalid}");
    }
    assert!(load_at(
        &files,
        &format!("{valid}        verifier: ansible\n")
            .replace("verifier: ansible\nscenarios", "verifier: dummy\nscenarios"),
    )
    .is_ok());
}

#[test]
fn a_missing_playbook_is_reported() {
    let yaml = "version: 1\nconverger: dummy\nverifier: dummy\nscenarios:\n  default:\n    create:\n      ansible:\n        playbook: missing.yml\n";
    assert!(load_at(&[], yaml).is_err());
    let present = [("/project/missing.yml", "---\n")];
    assert!(load_at(&present, yaml).is_ok());
}

#[test]
fn scenario_lookup_follows_paths_and_rejects_empty_segments() {
    let config = load(NESTED).ok().unwrap();
    assert!(config.scenario("default/restart/after").is_some());
    assert!(config.scenario("default//restart").is_none());
    assert!(config.scenario("").is_none());
    assert!(config.scenario("default/missing").is_none());
    assert!(config.scenarios.get("independent").is_some());
    assert_eq!(config.scenarios.iter().len(), 2);
}

#[test]
fn an_include_is_admitted_unless_missing_or_already_being_included() {
    let stack = vec!["/project/a.yml".to_owned()];
    match admit_include("/project/missing.yml".to_owned(), Err("not found".to_owned()), &stack) {
        Err(ConfigError::ReadInclude { path, reason }) => {
            assert_eq!(path, "/project/missing.yml");
            assert_eq!(reason, "not found");
        }
        _ => panic!("expected a read error"),
    }
    match admit_include("a.yml".to_owned(), Ok("/project/a.yml".to_owned()), &stack) {
        Err(ConfigError::IncludeCycle(path)) => assert_eq!(path, "/project/a.yml"),
        _ => panic!("expected an include cycle"),
    }
    match admit_include("b.yml".to_owned(), Ok("/project/b.yml".to_owned()), &stack) {
        Ok(path) => assert_eq!(path, "/project/b.yml"),
        _ => panic!("expected the include to be admitted"),
    }
}

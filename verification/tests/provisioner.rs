use cvd::config::PhaseDefinition;
use cvd::provisioner::{
    accept_create_result, destroy_targets, resources_by_type, AnsibleProvisioner,
    DummyProvisioner, MANIFEST_VERSION,
};
use cvd::schema::DummyStatus;
use cvd::state::{Attribute, LifecyclePhase, Resource, ResourceLocation, RunState};
use cvd::value::{Entry, Number, Value};

fn text(s: &str) -> Value {
    Value::String(s.to_owned())
}

fn mapping(entries: Vec<(&str, Value)>) -> Value {
    Value::Mapping(
        entries
            .into_iter()
            .map(|(key, value)| Entry { key: text(key), value })
            .collect(),
    )
}

fn number(n: u64) -> Value {
    Value::Number(Number::Unsigned(n))
}

fn resource(id: &str, name: Option<&str>) -> Resource {
    Resource {
        id: id.to_owned(),
        resource_type: "test".to_owned(),
        exists: true,
        created: ResourceLocation {
            scenario_path: "root/child".to_owned(),
            phase: LifecyclePhase::Create,
        },
        destroyed: None,
        attributes: name
            .map(|name| {
                vec![Attribute {
                    name: "ansible".to_owned(),
                    value: mapping(vec![
                        ("inventory_hostname", text(name)),
                        ("vars", mapping(vec![("ansible_connection", text("ssh"))])),
                    ]),
                }]
            })
            .unwrap_or_default(),
        relationships: Vec::new(),
        sensitive_attributes: Vec::new(),
    }
}

fn copy(resource: &Resource) -> Resource {
    Resource {
        id: resource.id.clone(),
        resource_type: resource.resource_type.clone(),
        exists: resource.exists,
        created: ResourceLocation {
            scenario_path: resource.created.scenario_path.clone(),
            phase: resource.created.phase,
        },
        destroyed: None,
        attributes: Vec::new(),
        relationships: Vec::new(),
        sensitive_attributes: Vec::new(),
    }
}

fn manifest(entries: Vec<(&str, Value)>) -> Value {
    mapping(entries)
}

fn definition(status: DummyStatus) -> PhaseDefinition {
    PhaseDefinition {
        value: Value::Null,
        status,
        dummy_override: false,
        playbook: None,
        vars: None,
    }
}

#[test]
fn create_manifest_requires_manifest_version() {
    let accepted = manifest(vec![
        ("manifest_version", number(1)),
        ("invocation_id", text("test-call")),
        ("complete", Value::Bool(true)),
        ("resources", Value::Sequence(vec![])),
    ]);
    let result = accept_create_result(&accepted, "test-call", "root");
    assert_eq!(result.ok().unwrap().resources.len(), 0);
    assert_eq!(MANIFEST_VERSION, 1);

    let without_version = manifest(vec![
        ("invocation_id", text("test-call")),
        ("complete", Value::Bool(true)),
        ("resources", Value::Sequence(vec![])),
        ("protocol_version", number(1)),
    ]);
    assert!(accept_create_result(&without_version, "test-call", "root").is_err());
}

#[test]
fn create_results_are_checked_against_the_invocation() {
    let reported = |resources: Vec<Value>, complete: bool| {
        manifest(vec![
            ("manifest_version", number(1)),
            ("invocation_id", text("call-1")),
            ("complete", Value::Bool(complete)),
            ("resources", Value::Sequence(resources)),
        ])
    };
    let web = mapping(vec![
        ("id", text("web")),
        ("type", text("container")),
        ("attributes", mapping(vec![("image", text("debian"))])),
    ]);
    let ok = accept_create_result(&reported(vec![web], true), "call-1", "root")
        .ok()
        .unwrap();
    let created = &ok.resources[0];
    assert_eq!(created.id, "web");
    assert_eq!(created.resource_type, "container");
    assert!(created.exists);
    assert_eq!(created.created.scenario_path, "root");
    assert_eq!(created.created.phase, LifecyclePhase::Create);
    assert_eq!(created.attributes.len(), 1);
    assert_eq!(created.attributes[0].name, "image");

    let web = mapping(vec![("id", text("web")), ("type", text("container"))]);
    assert!(accept_create_result(&reported(vec![], true), "call-2", "root").is_err());
    assert!(accept_create_result(&reported(vec![], false), "call-1", "root").is_err());
    let twice = vec![
        mapping(vec![("id", text("web")), ("type", text("container"))]),
        mapping(vec![("id", text("web")), ("type", text("container"))]),
    ];
    assert!(accept_create_result(&reported(twice, true), "call-1", "root").is_err());
    let no_type = mapping(vec![("id", text("web"))]);
    assert!(accept_create_result(&reported(vec![no_type], true), "call-1", "root").is_err());
    let extra = manifest(vec![
        ("manifest_version", number(1)),
        ("invocation_id", text("call-1")),
        ("complete", Value::Bool(true)),
        ("resources", Value::Sequence(vec![web])),
        ("unexpected", Value::Null),
    ]);
    assert!(accept_create_result(&extra, "call-1", "root").is_err());
    let version_two = manifest(vec![
        ("manifest_version", number(2)),
        ("invocation_id", text("call-1")),
        ("complete", Value::Bool(true)),
        ("resources", Value::Sequence(vec![])),
    ]);
    assert!(accept_create_result(&version_two, "call-1", "root").is_err());
}

#[test]
fn converger_visibility_and_grouping_preserve_inheritance_and_order() {
    let mut state = RunState::new("run", "cvd.yml", "x", None, false);
    state.enter_scenario("root", None);
    state.enter_scenario("root/child", Some("root".to_owned()));
    state.enter_scenario("root/sibling", Some("root".to_owned()));
    let mut host = resource("parent-host", Some("web"));
    host.created.scenario_path = "root".to_owned();
    host.resource_type = "container".to_owned();
    let mut image = resource("parent-image", None);
    image.created.scenario_path = "root".to_owned();
    image.resource_type = "docker.image".to_owned();
    let mut child_image = copy(&image);
    child_image.id = "child-image".to_owned();
    child_image.created.scenario_path = "root/child".to_owned();
    let mut deleted = resource("deleted", None);
    deleted.exists = false;
    let root = state.find("root").unwrap();
    state.scenarios[root].resources.resources = vec![host, image];
    let child = state.find("root/child").unwrap();
    state.scenarios[child].resources.resources = vec![child_image, deleted];
    let sibling = state.find("root/sibling").unwrap();
    state.scenarios[sibling].resources.resources = vec![resource("sibling", None)];

    let visible = state.visible_resources("root/child");
    let ids: Vec<&str> = visible.iter().map(|r| r.id.as_str()).collect();
    assert_eq!(ids, ["parent-host", "parent-image", "child-image"]);
    let grouped = resources_by_type(&visible);
    let types: Vec<&str> = grouped.iter().map(|g| g.resource_type.as_str()).collect();
    assert_eq!(types, ["container", "docker.image"]);
    assert_eq!(grouped[1].members, [1, 2]);
    assert_eq!(grouped[0].members, [0]);
    assert!(!types.contains(&"missing"));
    assert!(resources_by_type(&Vec::new()).is_empty());
    assert_eq!(state.visible_resources("root").len(), 2);
}

#[test]
fn destroy_separates_owned_hosts_from_other_resources_in_order() {
    let mut parent = resource("parent", Some("parent"));
    parent.created.scenario_path = "root".to_owned();
    let mut deleted = resource("deleted", Some("deleted"));
    deleted.exists = false;
    let resources = vec![
        parent,
        resource("id-z", Some("z")),
        resource("network", None),
        resource("id-a", Some("a")),
        deleted,
    ];
    let targets = destroy_targets("root/child", &resources);
    let aliases: Vec<&str> = targets.hosts.iter().map(|h| h.alias.as_str()).collect();
    assert_eq!(aliases, ["z", "a"]);
    assert_eq!(resources[targets.hosts[0].index].id, "id-z");
    assert_eq!(targets.others, vec![2]);
    assert_eq!(resources[targets.others[0]].id, "network");
    let empty = destroy_targets("unrelated", &resources);
    assert!(empty.hosts.is_empty());
    assert!(empty.others.is_empty());
}

#[test]
fn invalid_host_bindings_do_not_lose_resources_during_cleanup() {
    let mut malformed = resource("malformed", None);
    malformed.attributes.push(Attribute {
        name: "ansible".to_owned(),
        value: Value::Null,
    });
    let resources = vec![
        resource("one", Some("web")),
        resource("two", Some("web")),
        resource("three", Some("web__cvd_2")),
        malformed,
    ];
    let targets = destroy_targets("root/child", &resources);
    assert_eq!(targets.hosts.len(), 3);
    let ids: Vec<&str> = targets
        .hosts
        .iter()
        .map(|h| resources[h.index].id.as_str())
        .collect();
    assert_eq!(ids, ["one", "two", "three"]);
    let aliases: Vec<&str> = targets.hosts.iter().map(|h| h.alias.as_str()).collect();
    assert_eq!(aliases, ["web", "web__cvd_2", "web__cvd_2__cvd_2"]);
    assert_eq!(resources[targets.others[0]].id, "malformed");
}

#[test]
fn dummy_provisioner_creates_one_mock_resource_unless_told_to_fail() {
    let created = DummyProvisioner
        .create_resources("default", &definition(DummyStatus::Success))
        .ok()
        .unwrap();
    assert_eq!(created.resources.len(), 1);
    assert_eq!(created.resources[0].id, "mock");
    assert_eq!(created.resources[0].created.scenario_path, "default");
    assert!(DummyProvisioner
        .create_resources("default", &definition(DummyStatus::Error))
        .is_err());
    assert!(DummyProvisioner.destroy_resources(&definition(DummyStatus::Success)).is_ok());
    assert!(DummyProvisioner.destroy_resources(&definition(DummyStatus::Error)).is_err());
}

#[test]
fn ansible_is_required_only_when_it_is_the_default() {
    let fallback = AnsibleProvisioner::new(false, "/p");
    assert!(matches!(fallback.selected(&definition(DummyStatus::Success)), Ok(None)));
    let required = AnsibleProvisioner::new(true, "/p").with_inventory(vec!["/p/inv.yml".to_owned()]);
    assert_eq!(required.inventory.sources, ["/p/inv.yml"]);
    assert!(required.selected(&definition(DummyStatus::Success)).is_err());
    let mut playbook = definition(DummyStatus::Success);
    playbook.playbook = Some("/p/create.yml".to_owned());
    playbook.vars = Some(mapping(vec![]));
    let (path, _) = required.selected(&playbook).ok().unwrap().unwrap();
    assert_eq!(path, "/p/create.yml");
}

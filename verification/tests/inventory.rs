use cvd::inventory::{
    check_bindings, default_sources, hosts, inventory_document, inventory_environment,
    inventory_host_names, view_host_names, AnsibleInventory, HostBinding,
};
use cvd::state::{Attribute, LifecyclePhase, Resource, ResourceLocation, RunState};
use cvd::value::{Entry, Value};

fn text(s: &str) -> Value {
    Value::String(s.to_owned())
}

fn mapping(entries: Vec<(&str, Value)>) -> Value {
    Value::Mapping(
        entries
            .into_iter()
            .map(|(key, value)| Entry { key: text(key), value })
            .collect(),
    )
}

fn as_text(value: &Value) -> Option<&str> {
    match value {
        Value::String(s) => Some(s.as_str()),
        _ => None,
    }
}

fn lookup<'a>(value: &'a Value, key: &str) -> Option<&'a Value> {
    match value {
        Value::Mapping(entries) => entries
            .iter()
            .find(|entry| as_text(&entry.key) == Some(key))
            .map(|entry| &entry.value),
        _ => None,
    }
}

fn resource(name: &str) -> Resource {
    Resource {
        id: name.to_owned(),
        resource_type: "container".to_owned(),
        exists: true,
        created: ResourceLocation {
            scenario_path: "root".to_owned(),
            phase: LifecyclePhase::Create,
        },
        destroyed: None,
        attributes: vec![Attribute {
            name: "ansible".to_owned(),
            value: mapping(vec![
                ("inventory_hostname", text(name)),
                (
                    "vars",
                    mapping(vec![("ansible_host", text(&format!("actual-{name}")))]),
                ),
            ]),
        }],
        relationships: Vec::new(),
        sensitive_attributes: Vec::new(),
    }
}

fn resources_of<'a>(state: &'a mut RunState, path: &str) -> &'a mut Vec<Resource> {
    let k = state.find(path).expect("scenario entered");
    &mut state.scenarios[k].resources.resources
}

fn state() -> RunState {
    let mut state = RunState::new("inventory", "cvd.yml", "x", None, false);
    state.enter_scenario("root", None);
    state.enter_scenario("root/child", Some("root".to_owned()));
    state.enter_scenario("root/sibling", Some("root".to_owned()));
    *resources_of(&mut state, "root") = vec![resource("z"), resource("a")];
    resources_of(&mut state, "root/child").push(resource("child"));
    resources_of(&mut state, "root/sibling").push(resource("sibling"));
    state
}

fn names(bindings: &[HostBinding]) -> Vec<&str> {
    bindings.iter().map(|binding| binding.name.as_str()).collect()
}

#[test]
fn projects_only_live_ancestor_and_owned_bindings_in_resource_order() {
    let mut state = state();
    let mut nonhost = resource("network");
    nonhost.attributes.clear();
    let mut deleted = resource("deleted");
    deleted.exists = false;
    resources_of(&mut state, "root").extend([nonhost, deleted]);
    let result = hosts(&state, "root/child").unwrap();
    assert_eq!(names(&result), ["z", "a", "child"]);
    assert_eq!(
        lookup(&result[0].vars, "ansible_host").and_then(as_text),
        Some("actual-z")
    );
    assert_eq!(hosts(&state, "root").unwrap().len(), 2);
}

#[test]
fn rejects_ambiguous_and_malformed_bindings() {
    let mut state = state();
    resources_of(&mut state, "root/child").push(resource("z"));
    assert!(hosts(&state, "root/child")
        .err()
        .unwrap()
        .contains("multiple visible resources"));
    for binding in [
        Value::Null,
        mapping(vec![]),
        mapping(vec![("inventory_hostname", text(" "))]),
        mapping(vec![("inventory_hostname", text("z")), ("vars", Value::Sequence(vec![]))]),
        mapping(vec![("inventory_hostname", text("z")), ("groups", Value::Sequence(vec![]))]),
    ] {
        resources_of(&mut state, "root")[0].attributes = vec![Attribute {
            name: "ansible".to_owned(),
            value: binding,
        }];
        assert!(hosts(&state, "root").is_err());
    }
}

#[test]
fn sibling_resources_are_not_visible() {
    let state = state();
    assert_eq!(names(&hosts(&state, "root/sibling").unwrap()), ["z", "a", "sibling"]);
    assert_eq!(names(&hosts(&state, "unknown").unwrap()), Vec::<&str>::new());
}

#[test]
fn inventory_environment_appends_sources_and_refuses_commas() {
    let sources = vec!["/p/inventory.yml".to_owned(), "/p/hosts".to_owned()];
    assert_eq!(
        inventory_environment(String::new(), &sources).ok().unwrap(),
        "/p/inventory.yml,/p/hosts"
    );
    assert_eq!(
        inventory_environment("inherited".to_owned(), &sources).ok().unwrap(),
        "inherited,/p/inventory.yml,/p/hosts"
    );
    assert_eq!(
        inventory_environment("inherited,".to_owned(), &sources).ok().unwrap(),
        "inherited,/p/inventory.yml,/p/hosts"
    );
    let bad = vec!["a,b".to_owned()];
    assert!(inventory_environment(String::new(), &bad).is_err());
}

#[test]
fn inventory_environment_uses_defaults_only_without_inherited_or_configured_sources() {
    let defaults = vec!["/etc/ansible/hosts".to_owned()];
    let bare = AnsibleInventory::new("/p", Vec::new());
    assert!(bare.needs_default_sources(""));
    assert!(!bare.needs_default_sources("x"));
    assert!(!bare.sets_environment(None));
    assert!(bare.sets_environment(Some("/view.yml")));
    assert_eq!(
        bare.environment("", &defaults, Some("/view.yml")).ok().unwrap(),
        "/etc/ansible/hosts,/view.yml"
    );
    let configured = AnsibleInventory::new("/p", vec!["/p/inventory.yml".to_owned()]);
    assert_eq!(
        configured.environment("", &defaults, None).ok().unwrap(),
        "/p/inventory.yml"
    );
}

#[test]
fn default_sources_come_from_the_default_host_list_setting() {
    let settings = Value::Sequence(vec![
        mapping(vec![("name", text("OTHER")), ("value", text("x"))]),
        mapping(vec![
            ("name", text("DEFAULT_HOST_LIST")),
            ("value", Value::Sequence(vec![text("/etc/ansible/hosts")])),
        ]),
    ]);
    assert_eq!(default_sources(&settings).ok().unwrap(), ["/etc/ansible/hosts"]);
    assert!(default_sources(&Value::Sequence(vec![])).is_err());
}

#[test]
fn listed_hosts_skip_meta_and_unknown_hosts_are_refused() {
    let listing = mapping(vec![
        ("_meta", mapping(vec![("hostvars", mapping(vec![]))])),
        ("all", mapping(vec![("children", Value::Sequence(vec![text("ungrouped")]))])),
        ("ungrouped", mapping(vec![("hosts", Value::Sequence(vec![text("web"), text("db")]))])),
    ]);
    let known = inventory_host_names(&listing);
    assert_eq!(known, ["web", "db"]);
    let web = vec![HostBinding { name: "web".to_owned(), vars: mapping(vec![]) }];
    assert!(check_bindings(&web, &known).is_ok());
    let cache = vec![HostBinding { name: "cache".to_owned(), vars: mapping(vec![]) }];
    assert!(check_bindings(&cache, &known).is_err());
}

#[test]
fn the_runtime_view_lists_visible_hosts_and_reads_back() {
    let state = state();
    let bound = hosts(&state, "root/child").unwrap();
    let document = inventory_document(bound);
    assert_eq!(view_host_names(&document), ["z", "a", "child"]);
    let all = lookup(&document, "all").unwrap();
    let listed = lookup(all, "hosts").unwrap();
    assert_eq!(
        lookup(lookup(listed, "a").unwrap(), "ansible_host").and_then(as_text),
        Some("actual-a")
    );
    assert!(view_host_names(&mapping(vec![("other", mapping(vec![]))])).is_empty());
}

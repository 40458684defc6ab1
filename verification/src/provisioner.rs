//! Provisioners: what creates and destroys the resources of a scenario.
use vstd::prelude::*;

use crate::config::PhaseDefinition;
use crate::inventory::AnsibleInventory;
use crate::schema::DummyStatus;
use crate::state::{Attribute, LifecyclePhase, Resource, ResourceLocation, ResourceManifest};
use crate::text::{owned, str_eq};
use crate::value::{get, is_key, keys_within, lookup, same_value, views_of, Entry, Number, Value};

verus! {

/// Why a provisioner could not create or destroy resources.
pub struct ProvisionerError(pub String);

/// Creates and destroys the resources of a scenario.
///
/// Implementations talk to the outside world; nothing is assumed of what
/// they return.
pub trait Provisioner {
    /// Creates (or discovers) the resources of the scenario at
    /// `scenario_path`.
    fn create(&self, scenario_path: &str, definition: &PhaseDefinition) -> Result<
        ResourceManifest,
        ProvisionerError,
    >;

    /// Destroys the resources the scenario at `scenario_path` owns.
    fn destroy(
        &self,
        scenario_path: &str,
        resources: &ResourceManifest,
        definition: &PhaseDefinition,
    ) -> Result<(), ProvisionerError>;
}

/// Creates one fixed mock resource and pretends to destroy it.
pub struct DummyProvisioner;

/// The one resource the dummy provisioner creates in a scenario.
pub open spec fn mock_resource(r: Resource, scenario_path: Seq<char>) -> bool {
    &&& r.id@ == "mock"@
    &&& r.resource_type@ == "mock"@
    &&& r.exists
    &&& r.created.scenario_path@ == scenario_path
    &&& r.created.phase == LifecyclePhase::Create
    &&& r.destroyed is None
    &&& r.attributes@.len() == 0
    &&& r.relationships@.len() == 0
    &&& r.sensitive_attributes@.len() == 0
}

impl DummyProvisioner {
    /// One mock resource, or an error when the phase asks for one.
    pub fn create_resources(&self, scenario_path: &str, definition: &PhaseDefinition) -> (r: Result<
        ResourceManifest,
        ProvisionerError,
    >)
        ensures
            r is Err <==> definition.status == DummyStatus::Error,
            r matches Ok(m) ==> m.resources@.len() == 1 && mock_resource(
                m.resources@[0],
                scenario_path@,
            ),
    {
        if definition.dummy_status() == DummyStatus::Error {
            let mut message = owned("dummy create error for `");
            message.append(scenario_path);
            message.append("`");
            return Err(ProvisionerError(message));
        }
        let resource = Resource {
            id: owned("mock"),
            resource_type: owned("mock"),
            exists: true,
            created: ResourceLocation {
                scenario_path: owned(scenario_path),
                phase: LifecyclePhase::Create,
            },
            destroyed: None,
            attributes: Vec::new(),
            relationships: Vec::new(),
            sensitive_attributes: Vec::new(),
        };
        let mut resources = Vec::new();
        resources.push(resource);
        Ok(ResourceManifest { resources })
    }

    /// Succeeds unless the phase asks for an error.
    pub fn destroy_resources(&self, definition: &PhaseDefinition) -> (r: Result<(), ProvisionerError>)
        ensures
            r is Err <==> definition.status == DummyStatus::Error,
    {
        match definition.dummy_status() {
            DummyStatus::Error => Err(ProvisionerError(owned("dummy destroy error"))),
            _ => Ok(()),
        }
    }
}

impl Provisioner for DummyProvisioner {
    fn create(&self, scenario_path: &str, definition: &PhaseDefinition) -> (r: Result<
        ResourceManifest,
        ProvisionerError,
    >)
        ensures
            r is Err <==> definition.status == DummyStatus::Error,
            r matches Ok(m) ==> m.resources@.len() == 1 && mock_resource(
                m.resources@[0],
                scenario_path@,
            ),
    {
        self.create_resources(scenario_path, definition)
    }

    fn destroy(
        &self,
        scenario_path: &str,
        resources: &ResourceManifest,
        definition: &PhaseDefinition,
    ) -> (r: Result<(), ProvisionerError>)
        ensures
            r is Err <==> definition.status == DummyStatus::Error,
    {
        self.destroy_resources(definition)
    }
}


// ---------------------------------------------------------------------------
// The Ansible provisioner.
/// The version of the create-result manifest this library reads.
pub const MANIFEST_VERSION: u32 = 1;

/// The version of the input protocol handed to playbooks.
pub const PROTOCOL_VERSION: u32 = 1;

/// Runs Ansible create and destroy playbooks through a versioned JSON file
/// exchange; phases without an `ansible` mapping fall back to the dummy
/// provisioner, unless Ansible is the configured default.
pub struct AnsibleProvisioner {
    pub default_is_ansible: bool,
    pub working_directory: String,
    pub inventory: AnsibleInventory,
}

impl AnsibleProvisioner {
    /// A provisioner working from `working_directory`, without configured
    /// inventory sources.
    pub fn new(default_is_ansible: bool, working_directory: &str) -> (r: AnsibleProvisioner)
        ensures
            r.default_is_ansible == default_is_ansible,
            r.working_directory@ == working_directory@,
            r.inventory.working_directory@ == working_directory@,
            r.inventory.sources@.len() == 0,
    {
        AnsibleProvisioner {
            default_is_ansible,
            working_directory: owned(working_directory),
            inventory: AnsibleInventory::new(working_directory, Vec::new()),
        }
    }

    /// The same provisioner with the given inventory sources.
    pub fn with_inventory(self, inventory: Vec<String>) -> (r: AnsibleProvisioner)
        ensures
            r.default_is_ansible == self.default_is_ansible,
            r.working_directory == self.working_directory,
            r.inventory.working_directory@ == self.working_directory@,
            r.inventory.sources == inventory,
    {
        let inventory = AnsibleInventory::new(self.working_directory.as_str(), inventory);
        AnsibleProvisioner { inventory, ..self }
    }

    /// The Ansible options of a phase: its `ansible` mapping, none when the
    /// dummy provisioner should run it, and an error when Ansible is the
    /// default and the phase has no `ansible` mapping.
    pub fn selected<'b>(&self, definition: &'b PhaseDefinition) -> (r: Result<
        Option<(&'b String, &'b Value)>,
        ProvisionerError,
    >)
        ensures
            definition.playbook is Some && definition.vars is Some ==> (r matches Ok(Some(p))
                && Some(*p.0) == definition.playbook && Some(*p.1) == definition.vars),
            !(definition.playbook is Some && definition.vars is Some) ==> (r is Err
                <==> self.default_is_ansible),
            !(definition.playbook is Some && definition.vars is Some) && !self.default_is_ansible
                ==> r matches Ok(None),
    {
        match definition.ansible() {
            Some(p) => Ok(Some(p)),
            None => if self.default_is_ansible {
                Err(
                    ProvisionerError(
                        owned(
                            "the Ansible provisioner requires an explicit `ansible` phase mapping",
                        ),
                    ),
                )
            } else {
                Ok(None)
            },
        }
    }
}

pub open spec fn result_fields() -> Seq<Seq<char>> {
    seq!["manifest_version"@, "invocation_id"@, "complete"@, "resources"@]
}

pub open spec fn reported_fields() -> Seq<Seq<char>> {
    seq!["id"@, "type"@, "attributes"@, "relationships"@, "sensitive_attributes"@]
}

/// A list of strings; absent reads as empty.
pub open spec fn string_list_or_absent(v: Option<Value>) -> bool {
    match v {
        None => true,
        Some(Value::Sequence(items)) => forall|i: int| 0 <= i < items.len() ==> (#[trigger] items@[i]) is String,
        _ => false,
    }
}

/// Whether a reported resource has the expected shape: string `id` and
/// `type`, an optional mapping of `attributes` with string keys, and
/// optional string lists of `relationships` and `sensitive_attributes`.
pub open spec fn reported_shape(v: Value) -> bool {
    match v {
        Value::Mapping(es) => {
            &&& keys_within(es@, reported_fields())
            &&& lookup(es@, "id"@) matches Some(x) && x is String
            &&& lookup(es@, "type"@) matches Some(x) && x is String
            &&& (lookup(es@, "attributes"@) matches Some(a) ==> (a matches Value::Mapping(attrs)
                && forall|i: int| 0 <= i < attrs.len() ==> (#[trigger] attrs@[i]).key is String))
            &&& string_list_or_absent(lookup(es@, "relationships"@))
            &&& string_list_or_absent(lookup(es@, "sensitive_attributes"@))
        },
        _ => false,
    }
}

/// The string of a field, or empty.
pub open spec fn text_field(v: Value, name: Seq<char>) -> Seq<char> {
    match v {
        Value::Mapping(es) => match lookup(es@, name) {
            Some(Value::String(s)) => s@,
            _ => seq![],
        },
        _ => seq![],
    }
}

/// The reported resources of a create result.
pub open spec fn reported(doc: Value) -> Seq<Value> {
    match doc {
        Value::Mapping(es) => match lookup(es@, "resources"@) {
            Some(Value::Sequence(items)) => items@,
            _ => seq![],
        },
        _ => seq![],
    }
}

/// Whether a create result has the expected shape.
pub open spec fn result_shape(doc: Value) -> bool {
    match doc {
        Value::Mapping(es) => {
            &&& keys_within(es@, result_fields())
            &&& lookup(es@, "manifest_version"@) matches Some(Value::Number(Number::Unsigned(n)))
                && n <= u32::MAX
            &&& lookup(es@, "invocation_id"@) matches Some(x) && x is String
            &&& lookup(es@, "complete"@) matches Some(x) && x is Bool
            &&& lookup(es@, "resources"@) matches Some(Value::Sequence(items)) && forall|i: int|
                0 <= i < items.len() ==> reported_shape(#[trigger] items@[i])
        },
        _ => false,
    }
}

/// Whether a create result is accepted for the invocation `invocation_id`:
/// the expected shape, the supported manifest version, this invocation,
/// marked complete, and resources with nonempty, distinct ids and nonempty
/// types.
pub open spec fn result_accepted(doc: Value, invocation_id: Seq<char>) -> bool {
    &&& result_shape(doc)
    &&& doc matches Value::Mapping(es)
    &&& lookup(es@, "manifest_version"@) == Some(Value::Number(Number::Unsigned(MANIFEST_VERSION as u64)))
    &&& text_field(doc, "invocation_id"@) == invocation_id
    &&& lookup(es@, "complete"@) == Some(Value::Bool(true))
    &&& forall|i: int|
        0 <= i < reported(doc).len() ==> text_field(#[trigger] reported(doc)[i], "id"@).len() > 0
            && text_field(reported(doc)[i], "type"@).len() > 0
    &&& forall|i: int, j: int|
        0 <= i < j < reported(doc).len() ==> text_field(#[trigger] reported(doc)[i], "id"@)
            != text_field(#[trigger] reported(doc)[j], "id"@)
}

fn invalid(reason: &str) -> (e: ProvisionerError)
    ensures
        e.0@ == "invalid Ansible create result: "@ + reason@,
{
    let mut message = owned("invalid Ansible create result: ");
    message.append(reason);
    ProvisionerError(message)
}

/// The strings a list value holds, in order; an absent list holds none.
pub open spec fn listed_strings(v: Option<Value>) -> Seq<Seq<char>> {
    match v {
        Some(Value::Sequence(items)) => Seq::new(
            items@.len(),
            |i: int|
                match items@[i] {
                    Value::String(s) => s@,
                    _ => seq![],
                },
        ),
        _ => seq![],
    }
}

/// Whether a resource keeps what a reported resource gives: its
/// attributes, in order, with their values, its relationships and its
/// sensitive attribute names.
pub open spec fn kept_from(res: Resource, v: Value) -> bool {
    let es = match v {
        Value::Mapping(es) => es@,
        _ => seq![],
    };
    &&& match lookup(es, "attributes"@) {
        Some(Value::Mapping(attrs)) => res.attributes@.len() == attrs@.len() && forall|i: int|
            0 <= i < attrs@.len() ==> is_key((#[trigger] attrs@[i]).key, res.attributes@[i].name@)
                && same_value(res.attributes@[i].value, attrs@[i].value),
        _ => res.attributes@.len() == 0,
    }
    &&& res.relationships@.map_values(|s: String| s@) == listed_strings(lookup(es, "relationships"@))
    &&& res.sensitive_attributes@.map_values(|s: String| s@) == listed_strings(
        lookup(es, "sensitive_attributes"@),
    )
}

/// Reads a list of strings; an absent list is empty.
fn read_strings(v: Option<&Value>) -> (r: Option<Vec<String>>)
    ensures
        r matches Some(out) ==> out@.map_values(|s: String| s@) == listed_strings(match v {
            Some(x) => Some(*x),
            None => None,
        }),
        r is Some <==> string_list_or_absent(match v {
            Some(x) => Some(*x),
            None => None,
        }),
{
    match v {
        None => Some(Vec::new()),
        Some(Value::Sequence(items)) => {
            let mut out: Vec<String> = Vec::new();
            let mut i: usize = 0;
            while i < items.len()
                invariant
                    v matches Some(x) && *x == Value::Sequence(*items),
                    i <= items@.len(),
                    forall|j: int| 0 <= j < i ==> (#[trigger] items@[j]) is String,
                    out@.len() == i,
                    forall|j: int| 0 <= j < i ==> ((#[trigger] items@[j]) matches Value::String(t) && out@[j]@ == t@),
                decreases items.len() - i,
            {
                match &items[i] {
                    Value::String(s) => {
                        out.push(s.clone());
                    },
                    _ => {
                        return None;
                    },
                }
                i = i + 1;
            }
            assert(out@.map_values(|s: String| s@) =~= listed_strings(Some(Value::Sequence(*items))));
            Some(out)
        },
        _ => None,
    }
}

/// Reads one reported resource as a resource created now in the scenario
/// at `scenario_path`.
fn read_reported(v: &Value, scenario_path: &str) -> (r: Result<Resource, ProvisionerError>)
    ensures
        r is Ok <==> reported_shape(*v),
        r matches Ok(res) ==> res.id@ == text_field(*v, "id"@) && res.resource_type@ == text_field(
            *v,
            "type"@,
        ) && res.exists && res.created.scenario_path@ == scenario_path@ && res.created.phase
            == LifecyclePhase::Create && res.destroyed is None && kept_from(res, *v),
{
    let es = match v {
        Value::Mapping(es) => es,
        _ => {
            return Err(invalid("a resource must be a mapping"));
        },
    };
    let names: [&str; 5] = ["id", "type", "attributes", "relationships", "sensitive_attributes"];
    assert(views_of(names@) =~= reported_fields()) by {
        reveal_strlit("id");
        reveal_strlit("type");
        reveal_strlit("attributes");
        reveal_strlit("relationships");
        reveal_strlit("sensitive_attributes");
    }
    if crate::value::first_unknown_key(es, &names).is_some() {
        return Err(invalid("unknown resource field"));
    }
    let id = match get(es, "id") {
        Some(Value::String(s)) => s.clone(),
        _ => {
            return Err(invalid("a resource needs a string `id`"));
        },
    };
    let resource_type = match get(es, "type") {
        Some(Value::String(s)) => s.clone(),
        _ => {
            return Err(invalid("a resource needs a string `type`"));
        },
    };
    let mut attributes: Vec<Attribute> = Vec::new();
    match get(es, "attributes") {
        None => {},
        Some(Value::Mapping(attrs)) => {
            let mut i: usize = 0;
            while i < attrs.len()
                invariant
                    *v == Value::Mapping(*es),
                    lookup(es@, "attributes"@) == Some(Value::Mapping(*attrs)),
                    i <= attrs@.len(),
                    forall|j: int| 0 <= j < i ==> (#[trigger] attrs@[j]).key is String,
                    attributes@.len() == i,
                    forall|j: int|
                        0 <= j < i ==> is_key((#[trigger] attrs@[j]).key, attributes@[j].name@)
                            && same_value(attributes@[j].value, attrs@[j].value),
                decreases attrs.len() - i,
            {
                match &attrs[i].key {
                    Value::String(name) => {
                        attributes.push(
                            Attribute {
                                name: name.clone(),
                                value: crate::value::copy_value(&attrs[i].value),
                            },
                        );
                    },
                    _ => {
                        return Err(invalid("attribute names must be strings"));
                    },
                }
                i = i + 1;
            }
        },
        Some(_) => {
            return Err(invalid("resource attributes must be a mapping"));
        },
    }
    let relationships = match read_strings(get(es, "relationships")) {
        Some(r) => r,
        None => {
            return Err(invalid("resource relationships must be strings"));
        },
    };
    let sensitive_attributes = match read_strings(get(es, "sensitive_attributes")) {
        Some(r) => r,
        None => {
            return Err(invalid("sensitive attribute names must be strings"));
        },
    };
    Ok(
        Resource {
            id,
            resource_type,
            exists: true,
            created: ResourceLocation {
                scenario_path: owned(scenario_path),
                phase: LifecyclePhase::Create,
            },
            destroyed: None,
            attributes,
            relationships,
            sensitive_attributes,
        },
    )
}

/// Accepts the result an Ansible create playbook published for the
/// invocation `invocation_id` in the scenario at `scenario_path`: its
/// resources, in order, as created by that scenario's create phase.
pub fn accept_create_result(doc: &Value, invocation_id: &str, scenario_path: &str) -> (r: Result<
    ResourceManifest,
    ProvisionerError,
>)
    ensures
        r is Ok <==> result_accepted(*doc, invocation_id@),
        r matches Ok(m) ==> m.resources@.len() == reported(*doc).len() && forall|i: int|
            0 <= i < m.resources@.len() ==> {
                &&& (#[trigger] m.resources@[i]).id@ == text_field(reported(*doc)[i], "id"@)
                &&& m.resources@[i].resource_type@ == text_field(reported(*doc)[i], "type"@)
                &&& m.resources@[i].exists
                &&& m.resources@[i].created.scenario_path@ == scenario_path@
                &&& m.resources@[i].created.phase == LifecyclePhase::Create
                &&& m.resources@[i].destroyed is None
                &&& kept_from(m.resources@[i], reported(*doc)[i])
            },
{
    let es = match doc {
        Value::Mapping(es) => es,
        _ => {
            return Err(invalid("expected a mapping"));
        },
    };
    let names: [&str; 4] = ["manifest_version", "invocation_id", "complete", "resources"];
    assert(views_of(names@) =~= result_fields()) by {
        reveal_strlit("manifest_version");
        reveal_strlit("invocation_id");
        reveal_strlit("complete");
        reveal_strlit("resources");
    }
    if crate::value::first_unknown_key(es, &names).is_some() {
        return Err(invalid("unknown field"));
    }
    let version = match get(es, "manifest_version") {
        Some(Value::Number(Number::Unsigned(n))) => if *n <= 4294967295u64 {
            *n
        } else {
            return Err(invalid("`manifest_version` must be a 32-bit version"));
        },
        _ => {
            return Err(invalid("missing `manifest_version`"));
        },
    };
    let reported_id = match get(es, "invocation_id") {
        Some(Value::String(s)) => s,
        _ => {
            return Err(invalid("missing `invocation_id`"));
        },
    };
    let complete = match get(es, "complete") {
        Some(Value::Bool(b)) => *b,
        _ => {
            return Err(invalid("missing `complete`"));
        },
    };
    let items = match get(es, "resources") {
        Some(Value::Sequence(items)) => items,
        _ => {
            return Err(invalid("missing `resources`"));
        },
    };
    assert(reported(*doc) == items@);
    let mut resources: Vec<Resource> = Vec::new();
    let mut i: usize = 0;
    while i < items.len()
        invariant
            reported(*doc) == items@,
            i <= items@.len(),
            resources@.len() == i,
            forall|j: int| 0 <= j < i ==> reported_shape(#[trigger] items@[j]),
            forall|j: int|
                0 <= j < i ==> {
                    &&& (#[trigger] resources@[j]).id@ == text_field(items@[j], "id"@)
                    &&& resources@[j].resource_type@ == text_field(items@[j], "type"@)
                    &&& resources@[j].exists
                    &&& resources@[j].created.scenario_path@ == scenario_path@
                    &&& resources@[j].created.phase == LifecyclePhase::Create
                    &&& resources@[j].destroyed is None
                    &&& kept_from(resources@[j], items@[j])
                },
        decreases items.len() - i,
    {
        match read_reported(&items[i], scenario_path) {
            Ok(resource) => {
                resources.push(resource);
            },
            Err(e) => {
                return Err(e);
            },
        }
        i = i + 1;
    }
    if version != 1 {
        let mut message = owned("unsupported Ansible manifest version ");
        message.append(crate::text::decimal_string(version).as_str());
        return Err(ProvisionerError(message));
    }
    if !str_eq(reported_id.as_str(), invocation_id) {
        return Err(
            ProvisionerError(owned("Ansible result invocation ID does not match this execution")),
        );
    }
    if !complete {
        return Err(ProvisionerError(owned("Ansible create result is not marked complete")));
    }
    let mut k: usize = 0;
    while k < resources.len()
        invariant
            reported(*doc) == items@,
            resources@.len() == items@.len(),
            k <= resources@.len(),
            forall|j: int|
                0 <= j < resources@.len() ==> (#[trigger] resources@[j]).id@ == text_field(
                    items@[j],
                    "id"@,
                ) && resources@[j].resource_type@ == text_field(items@[j], "type"@),
            forall|j: int|
                0 <= j < k ==> text_field(#[trigger] items@[j], "id"@).len() > 0 && text_field(
                    items@[j],
                    "type"@,
                ).len() > 0,
            forall|a: int, b: int|
                0 <= a < b < k ==> text_field(#[trigger] items@[a], "id"@) != text_field(
                    #[trigger] items@[b],
                    "id"@,
                ),
        decreases resources.len() - k,
    {
        if resources[k].id.unicode_len() == 0 {
            return Err(ProvisionerError(owned("resource ID must not be empty")));
        }
        if resources[k].resource_type.unicode_len() == 0 {
            let mut message = owned("resource `");
            message.append(resources[k].id.as_str());
            message.append("` type must not be empty");
            return Err(ProvisionerError(message));
        }
        let mut m: usize = 0;
        while m < k
            invariant
                reported(*doc) == items@,
                resources@.len() == items@.len(),
                k < resources@.len(),
                m <= k,
                forall|j: int|
                    0 <= j < resources@.len() ==> (#[trigger] resources@[j]).id@ == text_field(
                        items@[j],
                        "id"@,
                    ),
                forall|a: int| 0 <= a < m ==> text_field(#[trigger] items@[a], "id"@) != text_field(
                    items@[k as int],
                    "id"@,
                ),
            decreases k - m,
        {
            if str_eq(resources[m].id.as_str(), resources[k].id.as_str()) {
                assert(text_field(items@[m as int], "id"@) == text_field(items@[k as int], "id"@));
                let mut message = owned("duplicate resource ID `");
                message.append(resources[k].id.as_str());
                message.append("`");
                return Err(ProvisionerError(message));
            }
            m = m + 1;
        }
        k = k + 1;
    }
    Ok(ResourceManifest { resources })
}


// ---------------------------------------------------------------------------
// Destroy targets.
/// The `n`-th name tried for a host named `name`: the name itself, then
/// `name__cvd_2`, `name__cvd_3`, and so on.
pub open spec fn candidate(name: Seq<char>, n: nat) -> Seq<char> {
    if n < 2 {
        name
    } else {
        name + "__cvd_"@ + crate::text::decimal(n)
    }
}

proof fn lemma_candidate_injective(name: Seq<char>, n: nat, m: nat)
    requires
        1 <= n,
        1 <= m,
        candidate(name, n) == candidate(name, m),
    ensures
        n == m,
{
    reveal_strlit("__cvd_");
    if n >= 2 && m >= 2 {
        let tail_n = crate::text::decimal(n);
        let tail_m = crate::text::decimal(m);
        let k: int = name.len() as int + 6;
        assert(candidate(name, n).subrange(k, candidate(name, n).len() as int) =~= tail_n);
        assert(candidate(name, m).subrange(k, candidate(name, m).len() as int) =~= tail_m);
        crate::text::lemma_decimal_injective(n, m);
    } else if n >= 2 {
        crate::text::lemma_decimal_nonempty(n);
        assert(candidate(name, n).len() > name.len());
    } else if m >= 2 {
        crate::text::lemma_decimal_nonempty(m);
        assert(candidate(name, m).len() > name.len());
    }
}

/// The inventory host name a resource binds, for destruction: a nonblank
/// `inventory_hostname` string in its `ansible` attribute mapping.
pub open spec fn destroy_host_name(r: Resource) -> Option<Seq<char>> {
    match crate::inventory::attribute(r.attributes@, "ansible"@) {
        Some(Value::Mapping(es)) => match lookup(es@, "inventory_hostname"@) {
            Some(Value::String(name)) => if crate::inventory::blank(name@) {
                None
            } else {
                Some(name@)
            },
            _ => None,
        },
        _ => None,
    }
}

/// Whether a resource is destroyed by the scenario at `scenario`: it
/// exists and that scenario created it.
pub open spec fn owned_live(r: Resource, scenario: Seq<char>) -> bool {
    r.exists && r.created.scenario_path@ == scenario
}

/// Whether `alias` is one of the names tried for the host a resource
/// binds.
pub open spec fn alias_of(alias: Seq<char>, r: Resource) -> bool {
    match destroy_host_name(r) {
        Some(n) => exists|k: nat| 1 <= k && alias == #[trigger] candidate(n, k),
        None => false,
    }
}

/// One owned host of a destroy inventory: its unique alias there and the
/// position of its resource.
pub struct DestroyHost {
    pub alias: String,
    pub index: usize,
}

/// What a destroy playbook receives: owned hosts under unique aliases,
/// and the other owned resources, each by position.
pub struct DestroyTargets {
    pub hosts: Vec<DestroyHost>,
    pub others: Vec<usize>,
}

/// The aliases of destroy hosts.
pub open spec fn aliases(hosts: Seq<DestroyHost>) -> Seq<Seq<char>> {
    Seq::new(hosts.len(), |i: int| hosts[i].alias@)
}

/// Whether `alias` is the first name for `name` that `taken` does not hold:
/// `name`, then `name__cvd_2`, `name__cvd_3`, and so on.
pub open spec fn first_free(alias: Seq<char>, name: Seq<char>, taken: Seq<Seq<char>>) -> bool {
    exists|n: nat|
        1 <= n && alias == #[trigger] candidate(name, n) && !taken.contains(alias) && forall|m: nat|
            1 <= m < n ==> taken.contains(#[trigger] candidate(name, m))
}

/// The first name for `name` that `taken` does not hold.
fn free_alias(name: &str, taken: &Vec<DestroyHost>) -> (r: String)
    requires
        taken@.len() < usize::MAX,
    ensures
        !aliases(taken@).contains(r@),
        exists|n: nat| 1 <= n && r@ == #[trigger] candidate(name@, n),
        first_free(r@, name@, aliases(taken@)),
        !aliases(taken@).contains(name@) ==> r@ == name@,
{
    let ghost names = aliases(taken@);
    let ghost taken_set = names.to_set();
    proof {
        names.lemma_cardinality_of_set();
    }
    let mut alias = owned(name);
    let mut suffix: usize = 1;
    let ghost mut tried: Set<Seq<char>> = Set::empty();
    assert(alias@ == candidate(name@, 1));
    while suffix <= taken.len() && contains_alias(taken, alias.as_str())
        invariant
            names == aliases(taken@),
            taken_set == names.to_set(),
            taken_set.len() <= names.len(),
            1 <= suffix,
            alias@ == candidate(name@, suffix as nat),
            tried.finite(),
            tried.len() == suffix - 1,
            tried.subset_of(taken_set),
            forall|m: nat| 1 <= m < suffix ==> tried.contains(#[trigger] candidate(name@, m)),
            forall|x: Seq<char>| tried.contains(x) ==> exists|m: nat| 1 <= m < suffix && x == #[trigger] candidate(name@, m),
            names.len() == taken@.len(),
            taken@.len() < usize::MAX,
        decreases taken.len() + 1 - suffix,
    {
        proof {
            assert(names.contains(alias@));
            assert(!tried.contains(alias@)) by {
                if tried.contains(alias@) {
                    let m = choose|m: nat| 1 <= m < suffix && alias@ == #[trigger] candidate(name@, m);
                    lemma_candidate_injective(name@, m, suffix as nat);
                }
            }
            tried = tried.insert(alias@);
            vstd::set_lib::lemma_len_subset(tried, taken_set);
        }
        suffix = suffix + 1;
        let mut next = owned(name);
        next.append("__cvd_");
        next.append(crate::text::decimal_string(suffix as u64).as_str());
        alias = next;
        assert(alias@ =~= candidate(name@, suffix as nat));
    }
    if suffix > taken.len() {
        proof {
            vstd::set_lib::lemma_len_subset(tried, taken_set);
        }
        if contains_alias(taken, alias.as_str()) {
            proof {
                assert(!tried.contains(alias@)) by {
                    if tried.contains(alias@) {
                        let m = choose|m: nat| 1 <= m < suffix && alias@ == #[trigger] candidate(name@, m);
                        lemma_candidate_injective(name@, m, suffix as nat);
                    }
                }
                vstd::set_lib::lemma_len_subset(tried.insert(alias@), taken_set);
            }
        }
    }
    assert forall|m: nat| 1 <= m < suffix implies names.contains(#[trigger] candidate(name@, m)) by {
        assert(tried.contains(candidate(name@, m)));
        assert(taken_set.contains(candidate(name@, m)));
    }
    assert(alias@ == candidate(name@, suffix as nat));
    alias
}

fn contains_alias(taken: &Vec<DestroyHost>, alias: &str) -> (r: bool)
    ensures
        r == aliases(taken@).contains(alias@),
{
    let mut i: usize = 0;
    while i < taken.len()
        invariant
            i <= taken@.len(),
            forall|j: int| 0 <= j < i ==> (#[trigger] taken@[j]).alias@ != alias@,
        decreases taken.len() - i,
    {
        if str_eq(taken[i].alias.as_str(), alias) {
            assert(aliases(taken@)[i as int] == alias@);
            return true;
        }
        i = i + 1;
    }
    assert(!aliases(taken@).contains(alias@)) by {
        if aliases(taken@).contains(alias@) {
            let j = choose|j: int| 0 <= j < aliases(taken@).len() && aliases(taken@)[j] == alias@;
            assert(taken@[j].alias@ == alias@);
        }
    }
    false
}

/// Reads the host name a resource binds, for destruction.
fn read_destroy_host_name(r: &Resource) -> (name: Option<&String>)
    ensures
        match destroy_host_name(*r) {
            Some(n) => name matches Some(s) && s@ == n,
            None => name is None,
        },
{
    match crate::inventory::get_attribute(&r.attributes, "ansible") {
        Some(Value::Mapping(es)) => match get(es, "inventory_hostname") {
            Some(Value::String(name)) => if crate::inventory::is_blank(name.as_str()) {
                None
            } else {
                Some(name)
            },
            _ => None,
        },
        _ => None,
    }
}

/// Splits the resources a scenario destroys: owned hosts, each under the
/// first free alias of its name, and the other owned resources.  Only
/// existing resources the scenario created are targets; order is kept.
pub fn destroy_targets(scenario: &str, resources: &Vec<Resource>) -> (r: DestroyTargets)
    ensures
        forall|i: int, j: int|
            0 <= i < j < r.hosts@.len() ==> (#[trigger] r.hosts@[i]).alias@ != (
            #[trigger] r.hosts@[j]).alias@,
        forall|i: int|
            0 <= i < r.hosts@.len() ==> (#[trigger] r.hosts@[i]).index < resources@.len()
                && owned_live(resources@[r.hosts@[i].index as int], scenario@) && alias_of(
                r.hosts@[i].alias@,
                resources@[r.hosts@[i].index as int],
            ),
        forall|i: int|
            0 <= i < r.others@.len() ==> (#[trigger] r.others@[i]) < resources@.len()
                && owned_live(resources@[r.others@[i] as int], scenario@) && destroy_host_name(
                resources@[r.others@[i] as int],
            ) is None,
        forall|i: int, j: int|
            0 <= i < j < r.hosts@.len() ==> (#[trigger] r.hosts@[i]).index < (
            #[trigger] r.hosts@[j]).index,
        forall|i: int, j: int|
            0 <= i < j < r.others@.len() ==> (#[trigger] r.others@[i]) < (#[trigger] r.others@[j]),
        forall|i: int|
            0 <= i < r.hosts@.len() ==> (destroy_host_name(
                resources@[(#[trigger] r.hosts@[i]).index as int],
            ) matches Some(n) && first_free(r.hosts@[i].alias@, n, aliases(r.hosts@.take(i)))),
        forall|k: int|
            0 <= k < resources@.len() && owned_live(#[trigger] resources@[k], scenario@) ==> (
            exists|i: int| 0 <= i < r.hosts@.len() && r.hosts@[i].index == k) || (exists|i: int|
                0 <= i < r.others@.len() && r.others@[i] == k),
{
    let mut hosts: Vec<DestroyHost> = Vec::new();
    let mut others: Vec<usize> = Vec::new();
    let mut k: usize = 0;
    while k < resources.len()
        invariant
            k <= resources@.len(),
            hosts@.len() <= k,
            forall|i: int, j: int|
                0 <= i < j < hosts@.len() ==> (#[trigger] hosts@[i]).alias@ != (
                #[trigger] hosts@[j]).alias@,
            forall|i: int|
                0 <= i < hosts@.len() ==> (#[trigger] hosts@[i]).index < k && owned_live(
                    resources@[hosts@[i].index as int],
                    scenario@,
                ) && alias_of(hosts@[i].alias@, resources@[hosts@[i].index as int]),
            forall|i: int|
                0 <= i < others@.len() ==> (#[trigger] others@[i]) < k && owned_live(
                    resources@[others@[i] as int],
                    scenario@,
                ) && destroy_host_name(resources@[others@[i] as int]) is None,
            forall|i: int, j: int|
                0 <= i < j < hosts@.len() ==> (#[trigger] hosts@[i]).index < (
                #[trigger] hosts@[j]).index,
            forall|i: int, j: int| 0 <= i < j < others@.len() ==> (#[trigger] others@[i]) < (#[trigger] others@[j]),
            forall|i: int|
                0 <= i < hosts@.len() ==> (destroy_host_name(
                    resources@[(#[trigger] hosts@[i]).index as int],
                ) matches Some(n) && first_free(hosts@[i].alias@, n, aliases(hosts@.take(i)))),
            forall|m: int|
                0 <= m < k && owned_live(#[trigger] resources@[m], scenario@) ==> (exists|i: int|
                    0 <= i < hosts@.len() && hosts@[i].index == m) || (exists|i: int|
                    0 <= i < others@.len() && others@[i] == m),
        decreases resources.len() - k,
    {
        let resource = &resources[k];
        if resource.exists && str_eq(resource.created.scenario_path.as_str(), scenario) {
            match read_destroy_host_name(resource) {
                Some(name) => {
                    let alias = free_alias(name.as_str(), &hosts);
                    let ghost before = hosts@;
                    proof {
                        assert forall|i: int| 0 <= i < before.len() implies before[i].alias@ != alias@ by {
                            assert(aliases(before)[i] == before[i].alias@);
                        }
                    }
                    hosts.push(DestroyHost { alias, index: k });
                    proof {
                        assert(hosts@[hosts@.len() - 1].index == k);
                        assert(aliases(hosts@.take(before.len() as int)) =~= aliases(before));
                        assert forall|i: int| 0 <= i < before.len() implies aliases(hosts@.take(i)) == aliases(
                            before.take(i),
                        ) by {
                            assert(aliases(hosts@.take(i)) =~= aliases(before.take(i)));
                        }
                        assert forall|m: int|
                            0 <= m < k + 1 && owned_live(#[trigger] resources@[m], scenario@) implies (
                            exists|i: int| 0 <= i < hosts@.len() && hosts@[i].index == m) || (exists|
                            i: int,
                        | 0 <= i < others@.len() && others@[i] == m) by {
                            if m < k {
                                if exists|i: int| 0 <= i < before.len() && before[i].index == m {
                                    let i = choose|i: int| 0 <= i < before.len() && before[i].index == m;
                                    assert(hosts@[i] == before[i]);
                                }
                            } else {
                                assert(hosts@[hosts@.len() - 1].index == m);
                            }
                        }
                    }
                },
                None => {
                    let ghost before = others@;
                    others.push(k);
                    proof {
                        assert(others@[others@.len() - 1] == k);
                        assert forall|m: int|
                            0 <= m < k + 1 && owned_live(#[trigger] resources@[m], scenario@) implies (
                            exists|i: int| 0 <= i < hosts@.len() && hosts@[i].index == m) || (exists|
                            i: int,
                        | 0 <= i < others@.len() && others@[i] == m) by {
                            if m < k {
                                if exists|i: int| 0 <= i < before.len() && before[i] == m {
                                    let i = choose|i: int| 0 <= i < before.len() && before[i] == m;
                                    assert(others@[i] == before[i]);
                                }
                            } else {
                                assert(others@[others@.len() - 1] == m);
                            }
                        }
                    }
                },
            }
        }
        k = k + 1;
    }
    let targets = DestroyTargets { hosts, others };
    assert forall|m: int|
        0 <= m < resources@.len() && owned_live(#[trigger] resources@[m], scenario@) implies (exists|
        i: int,
    | 0 <= i < targets.hosts@.len() && targets.hosts@[i].index == m) || (exists|i: int|
        0 <= i < targets.others@.len() && targets.others@[i] == m) by {
        if exists|i: int| 0 <= i < hosts@.len() && hosts@[i].index == m {
            let i = choose|i: int| 0 <= i < hosts@.len() && hosts@[i].index == m;
            assert(targets.hosts@[i].index == m);
        } else {
            let i = choose|i: int| 0 <= i < others@.len() && others@[i] == m;
            assert(targets.others@[i] == m);
        }
    }
    targets
}


/// The resources of one type, by position, in order.
pub struct TypeGroup {
    pub resource_type: String,
    pub members: Vec<usize>,
}

/// Whether `groups` group the first `n` resources by exact type: groups in
/// increasing type order, each holding, in order, the positions of the
/// resources of its type.
pub open spec fn grouped(groups: Seq<TypeGroup>, resources: Seq<Resource>, n: int) -> bool {
    &&& forall|i: int, j: int|
        0 <= i < j < groups.len() ==> crate::state::lex_less(
            (#[trigger] groups[i]).resource_type@,
            (#[trigger] groups[j]).resource_type@,
        )
    &&& forall|g: int, m: int|
        0 <= g < groups.len() && 0 <= m < groups[g].members@.len() ==> (#[trigger] groups[g].members@[m])
            < n && resources[groups[g].members@[m] as int].resource_type@ == groups[g].resource_type@
    &&& forall|g: int, a: int, b: int|
        0 <= g < groups.len() && 0 <= a < b < groups[g].members@.len() ==> (
        #[trigger] groups[g].members@[a]) < (#[trigger] groups[g].members@[b])
    &&& forall|k: int| 0 <= k < n ==> #[trigger] in_some_group(groups, k)
    &&& forall|g: int| 0 <= g < groups.len() ==> (#[trigger] groups[g]).members@.len() > 0
}

/// Whether position `k` is in some group.
pub open spec fn in_some_group(groups: Seq<TypeGroup>, k: int) -> bool {
    exists|g: int, m: int|
        0 <= g < groups.len() && 0 <= m < groups[g].members@.len() && #[trigger] groups[g].members@[m]
            == k
}

/// Groups resources by exact type, types in increasing order, each group
/// in resource order; types with no resource have no group.
pub fn resources_by_type(resources: &Vec<&Resource>) -> (r: Vec<TypeGroup>)
    ensures
        grouped(r@, resources@.map_values(|x: &Resource| *x), resources@.len() as int),
{
    let ghost rs = resources@.map_values(|x: &Resource| *x);
    let mut groups: Vec<TypeGroup> = Vec::new();
    let mut k: usize = 0;
    while k < resources.len()
        invariant
            rs == resources@.map_values(|x: &Resource| *x),
            k <= resources@.len(),
            grouped(groups@, rs, k as int),
        decreases resources.len() - k,
    {
        let t = resources[k].resource_type.as_str();
        assert(rs[k as int].resource_type@ == t@);
        let mut g: usize = 0;
        while g < groups.len() && crate::state::str_less(groups[g].resource_type.as_str(), t)
            invariant
                g <= groups@.len(),
                forall|i: int| 0 <= i < g ==> crate::state::lex_less(#[trigger] groups@[i].resource_type@, t@),
            decreases groups.len() - g,
        {
            g = g + 1;
        }
        let ghost before = groups@;
        if g < groups.len() && crate::text::str_eq(groups[g].resource_type.as_str(), t) {
            let ghost old_members = groups@[g as int].members@;
            groups[g].members.push(k);
            proof {
                assert forall|i: int| 0 <= i < groups@.len() && i != g implies groups@[i] == before[i] by {}
                assert(groups@[g as int].members@ == old_members.push(k));
                assert forall|m: int| 0 <= m < k + 1 implies #[trigger] in_some_group(groups@, m) by {
                    if m == k {
                        assert(groups@[g as int].members@[old_members.len() as int] == m);
                    } else {
                        assert(in_some_group(before, m));
                        let (h, n) = choose|h: int, n: int|
                            0 <= h < before.len() && 0 <= n < before[h].members@.len() && #[trigger] before[h].members@[n]
                                == m;
                        if h == g {
                            assert(groups@[h].members@[n] == old_members[n]);
                        } else {
                            assert(groups@[h] == before[h]);
                        }
                    }
                }
            }
        } else {
            let mut members: Vec<usize> = Vec::new();
            members.push(k);
            proof {
                if g < before.len() {
                    crate::state::lemma_lex_total(before[g as int].resource_type@, t@);
                    assert(crate::state::lex_less(t@, before[g as int].resource_type@));
                }
                assert forall|x: int| g <= x < before.len() implies crate::state::lex_less(
                    t@,
                    #[trigger] before[x].resource_type@,
                ) by {
                    if x > g {
                        crate::state::lemma_lex_transitive(t@, before[g as int].resource_type@, before[x].resource_type@);
                    }
                }
            }
            groups.insert(g, TypeGroup { resource_type: String::from_str(t), members });
            proof {
                assert forall|i: int, j: int|
                    0 <= i < j < groups@.len() implies crate::state::lex_less(
                    (#[trigger] groups@[i]).resource_type@,
                    (#[trigger] groups@[j]).resource_type@,
                ) by {
                    if j < g {
                        assert(groups@[i] == before[i] && groups@[j] == before[j]);
                    } else if j == g {
                        assert(groups@[i] == before[i]);
                    } else if i == g {
                        assert(groups@[j] == before[j - 1]);
                        if j - 1 > g {
                            crate::state::lemma_lex_transitive(t@, before[g as int].resource_type@, before[j - 1].resource_type@);
                        }
                    } else if i < g {
                        assert(groups@[i] == before[i] && groups@[j] == before[j - 1]);
                        if j - 1 >= g {
                            crate::state::lemma_lex_transitive(before[i].resource_type@, t@, before[j - 1].resource_type@);
                        }
                    } else {
                        assert(groups@[i] == before[i - 1] && groups@[j] == before[j - 1]);
                    }
                }
                assert forall|m: int| 0 <= m < k + 1 implies #[trigger] in_some_group(groups@, m) by {
                    if m == k {
                        assert(groups@[g as int].members@[0] == m);
                    } else {
                        assert(in_some_group(before, m));
                        let (h, n) = choose|h: int, n: int|
                            0 <= h < before.len() && 0 <= n < before[h].members@.len() && #[trigger] before[h].members@[n]
                                == m;
                        if h < g {
                            assert(groups@[h] == before[h]);
                        } else {
                            assert(groups@[h + 1] == before[h]);
                        }
                    }
                }
                assert forall|h: int, n: int|
                    0 <= h < groups@.len() && 0 <= n < groups@[h].members@.len() implies (#[trigger] groups@[h].members@[n])
                        < k + 1 && rs[groups@[h].members@[n] as int].resource_type@ == groups@[h].resource_type@ by {
                    if h < g {
                        assert(groups@[h] == before[h]);
                    } else if h > g {
                        assert(groups@[h] == before[h - 1]);
                    }
                }
                assert forall|h: int, a: int, b: int|
                    0 <= h < groups@.len() && 0 <= a < b < groups@[h].members@.len() implies (
                    #[trigger] groups@[h].members@[a]) < (#[trigger] groups@[h].members@[b]) by {
                    if h < g {
                        assert(groups@[h] == before[h]);
                    } else if h > g {
                        assert(groups@[h] == before[h - 1]);
                    }
                }
                assert forall|h: int| 0 <= h < groups@.len() implies (#[trigger] groups@[h]).members@.len() > 0 by {
                    if h < g {
                        assert(groups@[h] == before[h]);
                    } else if h > g {
                        assert(groups@[h] == before[h - 1]);
                    }
                }
            }
        }
        k = k + 1;
    }
    groups
}

} // verus!

//! CVD configuration: the document checks, the resolved scenario tree with
//! its included fragments, and scenario selection by path.
use vstd::prelude::*;

use crate::paths::{join, parent_or_dot};
use crate::schema::{
    is_supported, name_is_valid,
    configured_phase_name, dummy_options, parse_dummy_options, phase_key,
    ansible_options_valid, check_ansible_options, read_status, read_string, status_named, string_of,
    validate_name, validate_phase_value, phase_value_valid, ConfiguredPhase, DummyStatus,
};
use crate::selector::{child_path, path_with_child, segments, split_segments};
use crate::text::{has_prefix, lemma_prefix_trans, owned, str_eq};
use crate::value::{copy_value, find_key, get, is_key, keys_within, lookup, untag, untagged, views_of, Entry, Value};

verus! {

/// The configuration format version this library reads.
pub const CONFIG_VERSION: u32 = 1;

/// Access to the files a configuration refers to.
///
/// Implementations read the file system; what they return is not specified,
/// and every function that uses them states what holds whatever they return.
pub trait ConfigSource {
    /// The canonical absolute form of `path`.
    fn canonicalize(&self, path: &str) -> Result<String, String>;

    /// Whether a regular file exists at `path`.
    fn is_file(&self, path: &str) -> bool;

    /// The text of the file at `path`.
    fn read_to_string(&self, path: &str) -> Result<String, String>;

    /// The YAML document in `text`.
    fn parse_yaml(&self, text: &str) -> Result<Value, String>;
}

/// Why a configuration was rejected.
pub enum ConfigError {
    /// The text is not a YAML document of the expected shape.
    Parse(String),
    /// The document root is not a mapping.
    InvalidDocument(String),
    /// The configuration declares another format version.
    UnsupportedVersion(u32),
    /// A top-level setting (an adapter or the inventory) is not usable.
    InvalidDefault { kind: String, reason: String },
    /// A scenario name or entry is not usable.
    InvalidScenario { path: String, reason: String },
    /// A named test is not usable.
    InvalidTest { path: String, reason: String },
    /// An included scenario file could not be read.
    ReadInclude { path: String, reason: String },
    /// A scenario file includes itself.
    IncludeCycle(String),
    /// A nested entry combines `include` with inline content.
    IncludeWithInlineContent(String),
    /// A phase value is not usable.
    InvalidPhase { scenario: String, phase: ConfiguredPhase, reason: String },
}

/// One declared phase with its value.  `status` is what a dummy adapter is
/// told to produce; for an Ansible adapter mapping, `playbook` is the
/// resolved playbook path and `vars` the variables.
pub struct PhaseDefinition {
    pub value: Value,
    pub status: DummyStatus,
    pub dummy_override: bool,
    pub playbook: Option<String>,
    pub vars: Option<Value>,
}

pub struct PhaseSlot {
    pub phase: ConfiguredPhase,
    pub definition: PhaseDefinition,
}

/// Ansible options of a phase or a test.
pub struct AnsibleDefinition {
    pub playbook: String,
    pub vars: Value,
}

/// Pytest options of a test.
pub struct PytestDefinition {
    pub path: String,
    pub args: Vec<String>,
}

/// One named verifier invocation.
pub struct Test {
    pub ansible: Option<AnsibleDefinition>,
    pub pytest: Option<PytestDefinition>,
    pub verifier: Option<String>,
    pub status: DummyStatus,
}

pub struct NamedTest {
    pub name: String,
    pub test: Test,
}

/// The named tests of a scenario, in declaration order.
pub struct TestMap {
    pub entries: Vec<NamedTest>,
}

pub struct NamedScenario {
    pub name: String,
    pub scenario: Scenario,
}

/// Child scenarios, in declaration order.
pub struct ScenarioMap {
    pub entries: Vec<NamedScenario>,
}

/// One resolved scenario.
pub struct Scenario {
    pub phases: Vec<PhaseSlot>,
    pub tests: TestMap,
    pub scenarios: ScenarioMap,
}

/// A loaded configuration.
pub struct Config {
    pub inventory: Vec<String>,
    pub provisioner: String,
    pub converger: String,
    pub verifier: String,
    pub scenarios: ScenarioMap,
    pub source_material: String,
}

// ---------------------------------------------------------------------------
// The document schema.
pub open spec fn config_fields() -> Seq<Seq<char>> {
    seq![
        "version"@,
        "inventory"@,
        "provisioner"@,
        "converger"@,
        "verifier"@,
        "scenarios"@,
    ]
}

pub open spec fn scenario_fields() -> Seq<Seq<char>> {
    seq![
        "create"@,
        "prepare"@,
        "converge"@,
        "idempotence"@,
        "verify"@,
        "cleanup"@,
        "destroy"@,
        "nested"@,
    ]
}

pub open spec fn nested_fields() -> Seq<Seq<char>> {
    seq![
        "name"@,
        "include"@,
        "create"@,
        "prepare"@,
        "converge"@,
        "idempotence"@,
        "verify"@,
        "cleanup"@,
        "destroy"@,
        "nested"@,
    ]
}

pub open spec fn fields_of(nested: bool) -> Seq<Seq<char>> {
    if nested {
        nested_fields()
    } else {
        scenario_fields()
    }
}

/// A value that is absent (null) or a string.
pub open spec fn optional_string(v: Value) -> bool {
    v is Null || string_of(v) is Some
}

/// A list of strings; null reads as the empty list.
pub open spec fn string_list(v: Value) -> bool {
    match untagged(v) {
        Value::Null => true,
        Value::Sequence(items) => forall|i: int|
            0 <= i < items.len() ==> string_of(#[trigger] items@[i]) is Some,
        _ => false,
    }
}

/// Whether a scenario body (or, for `nested`, an entry of a `nested` list)
/// has the expected shape.
pub open spec fn raw_scenario_ok(v: Value, nested: bool) -> bool
    decreases v,
{
    match v {
        Value::Null => !nested,
        Value::Mapping(es) => {
            &&& keys_within(es@, fields_of(nested))
            &&& nested ==> (lookup(es@, "name"@) matches Some(n) && string_of(n) is Some)
            &&& nested ==> (lookup(es@, "include"@) matches Some(x) ==> optional_string(x))
            &&& forall|i: int|
                0 <= i < es.len() && is_key((#[trigger] es[i]).key, "nested"@) ==> nested_list_ok(
                    es[i].value,
                )
        },
        _ => false,
    }
}

/// Whether a `nested` value is a list of well-shaped entries; null reads as
/// the empty list.
pub open spec fn nested_list_ok(v: Value) -> bool
    decreases v,
{
    match v {
        Value::Null => true,
        Value::Sequence(items) => forall|i: int|
            0 <= i < items.len() ==> raw_scenario_ok(#[trigger] items[i], true),
        _ => false,
    }
}

/// Whether a mapping of named scenarios has the expected shape.
pub open spec fn named_scenarios_ok(v: Value) -> bool {
    match untagged(v) {
        Value::Null => true,
        Value::Mapping(es) => {
            &&& forall|i: int| 0 <= i < es.len() ==> string_of((#[trigger] es@[i]).key) is Some
            &&& forall|i: int|
                0 <= i < es.len() ==> raw_scenario_ok((#[trigger] es@[i]).value, false)
            &&& forall|i: int, j: int|
                0 <= i < j < es.len() ==> string_of(#[trigger] es@[i].key) != string_of(
                    #[trigger] es@[j].key,
                )
        },
        _ => false,
    }
}

/// The version a value declares, when it is one.
pub open spec fn version_of(v: Value) -> Option<u32> {
    match untagged(v) {
        Value::Number(crate::value::Number::Unsigned(n)) => if n <= u32::MAX {
            Some(n as u32)
        } else {
            None
        },
        _ => None,
    }
}

/// Whether the configuration document has the expected shape.
pub open spec fn raw_config_ok(v: Value) -> bool {
    match untagged(v) {
        Value::Mapping(es) => {
            &&& keys_within(es@, config_fields())
            &&& lookup(es@, "version"@) matches Some(x) && version_of(x) is Some
            &&& lookup(es@, "inventory"@) matches Some(x) ==> string_list(x)
            &&& lookup(es@, "provisioner"@) matches Some(x) ==> optional_string(x)
            &&& lookup(es@, "converger"@) matches Some(x) && string_of(x) is Some
            &&& lookup(es@, "verifier"@) matches Some(x) && string_of(x) is Some
            &&& lookup(es@, "scenarios"@) matches Some(x) && named_scenarios_ok(x)
        },
        _ => false,
    }
}

/// The version the configuration document declares.
pub open spec fn declared_version(v: Value) -> u32 {
    match untagged(v) {
        Value::Mapping(es) => match lookup(es@, "version"@) {
            Some(x) => match version_of(x) {
                Some(n) => n,
                None => 0,
            },
            None => 0,
        },
        _ => 0,
    }
}

// ---------------------------------------------------------------------------
// Checking the document shape.
/// Checks a value that may be null or a string.
fn check_optional_string(v: &Value) -> (r: bool)
    ensures
        r == optional_string(*v),
{
    match v {
        Value::Null => true,
        _ => read_string(v).is_some(),
    }
}

/// Checks a list of strings.
fn check_string_list(v: &Value) -> (r: bool)
    ensures
        r == string_list(*v),
{
    match untag(v) {
        Value::Null => true,
        Value::Sequence(items) => {
            let mut i: usize = 0;
            while i < items.len()
                invariant
                    untagged(*v) == Value::Sequence(*items),
                    i <= items@.len(),
                    forall|j: int| 0 <= j < i ==> string_of(#[trigger] items@[j]) is Some,
                decreases items.len() - i,
            {
                if read_string(&items[i]).is_none() {
                    return false;
                }
                i = i + 1;
            }
            true
        },
        _ => false,
    }
}

fn field_names(nested: bool) -> (names: Vec<&'static str>)
    ensures
        views_of(names@) == fields_of(nested),
{
    let mut names: Vec<&'static str> = Vec::new();
    if nested {
        names.push("name");
        names.push("include");
    }
    names.push("create");
    names.push("prepare");
    names.push("converge");
    names.push("idempotence");
    names.push("verify");
    names.push("cleanup");
    names.push("destroy");
    names.push("nested");
    proof {
        reveal_strlit("name");
        reveal_strlit("include");
        reveal_strlit("create");
        reveal_strlit("prepare");
        reveal_strlit("converge");
        reveal_strlit("idempotence");
        reveal_strlit("verify");
        reveal_strlit("cleanup");
        reveal_strlit("destroy");
        reveal_strlit("nested");
        assert(views_of(names@) =~= fields_of(nested));
    }
    names
}

fn parse_error(reason: &str) -> (e: ConfigError)
    ensures
        e matches ConfigError::Parse(m) && m@ == reason@,
{
    ConfigError::Parse(crate::text::owned(reason))
}

/// Checks the shape of a scenario body or nested entry, and of everything
/// nested inline in it.
pub fn check_raw_scenario(v: &Value, nested: bool) -> (r: Result<(), ConfigError>)
    ensures
        r is Ok <==> raw_scenario_ok(*v, nested),
        r matches Err(e) ==> e is Parse,
    decreases v,
{
    match v {
        Value::Null => if nested {
            Err(parse_error("a nested scenario needs a `name`"))
        } else {
            Ok(())
        },
        Value::Mapping(es) => {
            let names = field_names(nested);
            if crate::value::first_unknown_key(es, names.as_slice()).is_some() {
                return Err(parse_error("unknown field in scenario"));
            }
            if nested {
                match get(es, "name") {
                    Some(n) => if read_string(n).is_none() {
                        return Err(parse_error("a nested scenario name must be a string"));
                    },
                    None => {
                        return Err(parse_error("a nested scenario needs a `name`"));
                    },
                }
                match get(es, "include") {
                    Some(x) => if !check_optional_string(x) {
                        return Err(parse_error("`include` must be a path"));
                    },
                    None => {},
                }
            }
            let mut i: usize = 0;
            while i < es.len()
                invariant
                    *v == Value::Mapping(*es),
                    i <= es@.len(),
                    forall|j: int|
                        0 <= j < i && is_key((#[trigger] es[j]).key, "nested"@) ==> nested_list_ok(
                            es[j].value,
                        ),
                decreases es.len() - i,
            {
                proof {
                    assert(decreases_to!(v => v->Mapping_0));
                    assert(decreases_to!(v => es[i as int]));
                    assert(decreases_to!(v => es[i as int].value));
                }
                if crate::value::key_is(&es[i].key, "nested") {
                    match check_nested_list(&es[i].value) {
                        Ok(()) => {},
                        Err(e) => {
                            return Err(e);
                        },
                    }
                }
                i = i + 1;
            }
            Ok(())
        },
        _ => Err(parse_error("a scenario must be a mapping")),
    }
}

/// Checks a `nested` list.
fn check_nested_list(v: &Value) -> (r: Result<(), ConfigError>)
    ensures
        r is Ok <==> nested_list_ok(*v),
        r matches Err(e) ==> e is Parse,
    decreases v,
{
    match v {
        Value::Null => Ok(()),
        Value::Sequence(items) => {
            let mut i: usize = 0;
            while i < items.len()
                invariant
                    *v == Value::Sequence(*items),
                    i <= items@.len(),
                    forall|j: int| 0 <= j < i ==> raw_scenario_ok(#[trigger] items[j], true),
                decreases items.len() - i,
            {
                proof {
                    assert(decreases_to!(v => v->Sequence_0));
                    assert(decreases_to!(v => items[i as int]));
                }
                match check_raw_scenario(&items[i], true) {
                    Ok(()) => {},
                    Err(e) => {
                        return Err(e);
                    },
                }
                i = i + 1;
            }
            Ok(())
        },
        _ => Err(parse_error("`nested` must be a list")),
    }
}

/// Checks a mapping of named scenarios.
pub fn check_named_scenarios(v: &Value) -> (r: Result<(), ConfigError>)
    ensures
        r is Ok <==> named_scenarios_ok(*v),
        r matches Err(e) ==> e is Parse,
{
    match untag(v) {
        Value::Null => Ok(()),
        Value::Mapping(es) => {
            let mut i: usize = 0;
            while i < es.len()
                invariant
                    untagged(*v) == Value::Mapping(*es),
                    i <= es@.len(),
                    forall|j: int| 0 <= j < i ==> string_of((#[trigger] es@[j]).key) is Some,
                    forall|j: int| 0 <= j < i ==> raw_scenario_ok((#[trigger] es@[j]).value, false),
                    forall|j: int, k: int|
                        0 <= j < k < i ==> string_of(#[trigger] es@[j].key) != string_of(
                            #[trigger] es@[k].key,
                        ),
                decreases es.len() - i,
            {
                let name = match read_string(&es[i].key) {
                    Some(n) => n,
                    None => {
                        return Err(parse_error("a scenario name must be a string"));
                    },
                };
                let mut j: usize = 0;
                while j < i
                    invariant
                        untagged(*v) == Value::Mapping(*es),
                        i < es@.len(),
                        j <= i,
                        string_of(es@[i as int].key) == Some(name@),
                        forall|m: int| 0 <= m < i ==> string_of((#[trigger] es@[m]).key) is Some,
                        forall|m: int|
                            0 <= m < j ==> string_of(#[trigger] es@[m].key) != string_of(
                                es@[i as int].key,
                            ),
                    decreases i - j,
                {
                    let other = read_string(&es[j].key).unwrap();
                    if str_eq(other.as_str(), name.as_str()) {
                        assert(string_of(es@[j as int].key) == string_of(es@[i as int].key));
                        return Err(parse_error("duplicate scenario name"));
                    }
                    j = j + 1;
                }
                match check_raw_scenario(&es[i].value, false) {
                    Ok(()) => {},
                    Err(e) => {
                        return Err(e);
                    },
                }
                i = i + 1;
            }
            Ok(())
        },
        _ => Err(parse_error("`scenarios` must be a mapping")),
    }
}

/// The version a value declares, when it is one.
pub fn read_version(v: &Value) -> (r: Option<u32>)
    ensures
        r == version_of(*v),
{
    match untag(v) {
        Value::Number(crate::value::Number::Unsigned(n)) => if *n <= 4294967295u64 {
            Some(*n as u32)
        } else {
            None
        },
        _ => None,
    }
}

/// Checks the shape of the whole configuration document.
pub fn check_raw_config(v: &Value) -> (r: Result<(), ConfigError>)
    ensures
        r is Ok <==> raw_config_ok(*v),
        r matches Err(e) ==> e is Parse,
{
    match untag(v) {
        Value::Mapping(es) => {
            let names: [&str; 6] = [
                "version",
                "inventory",
                "provisioner",
                "converger",
                "verifier",
                "scenarios",
            ];
            assert(views_of(names@) =~= config_fields()) by {
                reveal_strlit("version");
                reveal_strlit("inventory");
                reveal_strlit("provisioner");
                reveal_strlit("converger");
                reveal_strlit("verifier");
                reveal_strlit("scenarios");
            }
            if crate::value::first_unknown_key(es, &names).is_some() {
                return Err(parse_error("unknown field in configuration"));
            }
            match get(es, "version") {
                Some(x) => if read_version(x).is_none() {
                    return Err(parse_error("`version` must be an unsigned 32-bit integer"));
                },
                None => {
                    return Err(parse_error("missing field `version`"));
                },
            }
            match get(es, "inventory") {
                Some(x) => if !check_string_list(x) {
                    return Err(parse_error("`inventory` must be a list of paths"));
                },
                None => {},
            }
            match get(es, "provisioner") {
                Some(x) => if !check_optional_string(x) {
                    return Err(parse_error("`provisioner` must be a string"));
                },
                None => {},
            }
            match get(es, "converger") {
                Some(x) => if read_string(x).is_none() {
                    return Err(parse_error("`converger` must be a string"));
                },
                None => {
                    return Err(parse_error("missing field `converger`"));
                },
            }
            match get(es, "verifier") {
                Some(x) => if read_string(x).is_none() {
                    return Err(parse_error("`verifier` must be a string"));
                },
                None => {
                    return Err(parse_error("missing field `verifier`"));
                },
            }
            match get(es, "scenarios") {
                Some(x) => check_named_scenarios(x),
                None => Err(parse_error("missing field `scenarios`")),
            }
        },
        _ => Err(parse_error("expected a configuration mapping")),
    }
}

// ---------------------------------------------------------------------------
// Named tests.
pub open spec fn test_fields() -> Seq<Seq<char>> {
    seq!["ansible"@, "pytest"@, "verifier"@, "status"@]
}

pub open spec fn pytest_fields() -> Seq<Seq<char>> {
    seq!["path"@, "args"@]
}

/// The entries of a mapping value; empty for any other value.
pub open spec fn entries_of(v: Value) -> Seq<Entry> {
    match untagged(v) {
        Value::Mapping(es) => es@,
        _ => seq![],
    }
}

/// The value of a field that is present and not null.
pub open spec fn given(es: Seq<Entry>, name: Seq<char>) -> Option<Value> {
    match lookup(es, name) {
        Some(x) => if x is Null {
            None
        } else {
            Some(x)
        },
        None => None,
    }
}

/// Whether `v` holds pytest options: a `path` and an optional list of
/// string `args`.
pub open spec fn pytest_ok(v: Value) -> bool {
    match untagged(v) {
        Value::Mapping(es) => {
            &&& keys_within(es@, pytest_fields())
            &&& lookup(es@, "path"@) matches Some(p) && string_of(p) is Some
            &&& lookup(es@, "args"@) matches Some(a) ==> string_list(a)
        },
        _ => false,
    }
}

/// Whether `v` describes a named test.
pub open spec fn test_ok(v: Value) -> bool {
    match untagged(v) {
        Value::Null => true,
        Value::Mapping(es) => {
            &&& keys_within(es@, test_fields())
            &&& given(es@, "ansible"@) matches Some(x) ==> ansible_options_valid(x)
            &&& given(es@, "pytest"@) matches Some(x) ==> pytest_ok(x)
            &&& lookup(es@, "verifier"@) matches Some(x) ==> optional_string(x)
            &&& lookup(es@, "status"@) matches Some(x) ==> status_named(x) is Some
        },
        _ => false,
    }
}

/// The dummy status a test declares.
pub open spec fn test_status(v: Value) -> DummyStatus {
    match lookup(entries_of(v), "status"@) {
        Some(x) => match status_named(x) {
            Some(s) => s,
            None => DummyStatus::Success,
        },
        None => DummyStatus::Success,
    }
}

/// The string of an optional field.
pub open spec fn given_string(es: Seq<Entry>, name: Seq<char>) -> Option<Seq<char>> {
    match given(es, name) {
        Some(x) => string_of(x),
        None => None,
    }
}

/// The strings of a list value.
pub open spec fn strings_of(v: Value) -> Seq<Seq<char>> {
    match untagged(v) {
        Value::Sequence(items) => Seq::new(
            items@.len(),
            |i: int|
                match string_of(items@[i]) {
                    Some(s) => s,
                    None => seq![],
                },
        ),
        _ => seq![],
    }
}

/// What a decoded test holds of the value it was read from.
pub open spec fn test_read_from(t: Test, v: Value) -> bool {
    let es = entries_of(v);
    &&& t.status == test_status(v)
    &&& crate::cli::opt_view(t.verifier) == given_string(es, "verifier"@)
    &&& (t.ansible is Some <==> given(es, "ansible"@) is Some)
    &&& (t.ansible matches Some(a) ==> Some(a.playbook@) == given_string(
        entries_of(given(es, "ansible"@)->0),
        "playbook"@,
    ))
    &&& (t.pytest is Some <==> given(es, "pytest"@) is Some)
    &&& (t.pytest matches Some(p) ==> {
        let opts = entries_of(given(es, "pytest"@)->0);
        &&& Some(p.path@) == given_string(opts, "path"@)
        &&& p.args@.map_values(|a: String| a@) == match given(opts, "args"@) {
            Some(a) => strings_of(a),
            None => seq![],
        }
    })
}

/// The strings of a list value, in order.
fn read_string_list(v: &Value) -> (r: Vec<String>)
    requires
        string_list(*v),
    ensures
        r@.map_values(|a: String| a@) == strings_of(*v),
{
    let mut out: Vec<String> = Vec::new();
    match untag(v) {
        Value::Sequence(items) => {
            let mut i: usize = 0;
            while i < items.len()
                invariant
                    untagged(*v) == Value::Sequence(*items),
                    forall|j: int| 0 <= j < items.len() ==> string_of(#[trigger] items@[j]) is Some,
                    i <= items@.len(),
                    out@.len() == i,
                    forall|j: int|
                        0 <= j < i ==> Some((#[trigger] out@[j])@) == string_of(items@[j]),
                decreases items.len() - i,
            {
                let s = read_string(&items[i]).unwrap();
                out.push(s.clone());
                i = i + 1;
            }
            assert(out@.map_values(|a: String| a@) =~= strings_of(*v));
        },
        _ => {
            assert(out@.map_values(|a: String| a@) =~= strings_of(*v));
        },
    }
    out
}

/// An empty mapping.
pub fn empty_mapping() -> (r: Value)
    ensures
        r matches Value::Mapping(es) && es@.len() == 0,
{
    Value::Mapping(Vec::new())
}

/// Reads a named test.
pub fn decode_test(v: &Value) -> (r: Result<Test, String>)
    ensures
        r is Ok <==> test_ok(*v),
        r matches Ok(t) ==> test_read_from(t, *v),
{
    match untag(v) {
        Value::Null => {
            assert(entries_of(*v) =~= seq![]);
            Ok(Test { ansible: None, pytest: None, verifier: None, status: DummyStatus::Success })
        },
        Value::Mapping(es) => {
            let names: [&str; 4] = ["ansible", "pytest", "verifier", "status"];
            assert(views_of(names@) =~= test_fields()) by {
                reveal_strlit("ansible");
                reveal_strlit("pytest");
                reveal_strlit("verifier");
                reveal_strlit("status");
            }
            if crate::value::first_unknown_key(es, &names).is_some() {
                return Err(crate::text::owned("unknown field in test"));
            }
            let ansible = match get(es, "ansible") {
                Some(x) if !matches!(x, Value::Null) => {
                    match check_ansible_options(x) {
                        Ok(()) => {},
                        Err(reason) => {
                            return Err(reason);
                        },
                    }
                    let opts = match untag(x) {
                        Value::Mapping(o) => o,
                        _ => {
                            return Err(crate::text::owned("invalid Ansible options"));
                        },
                    };
                    let playbook = read_string(get(opts, "playbook").unwrap()).unwrap().clone();
                    let vars = match get(opts, "vars") {
                        Some(x) => crate::value::copy_value(x),
                        None => empty_mapping(),
                    };
                    Some(AnsibleDefinition { playbook, vars })
                },
                _ => None,
            };
            let pytest = match get(es, "pytest") {
                Some(x) if !matches!(x, Value::Null) => {
                    let opts = match untag(x) {
                        Value::Mapping(o) => o,
                        _ => {
                            return Err(crate::text::owned("pytest options must be a mapping"));
                        },
                    };
                    let names: [&str; 2] = ["path", "args"];
                    assert(views_of(names@) =~= pytest_fields()) by {
                        reveal_strlit("path");
                        reveal_strlit("args");
                    }
                    if crate::value::first_unknown_key(opts, &names).is_some() {
                        return Err(crate::text::owned("unknown field in pytest options"));
                    }
                    let path = match get(opts, "path") {
                        Some(p) => match read_string(p) {
                            Some(p) => p.clone(),
                            None => {
                                return Err(crate::text::owned("pytest path must be a path"));
                            },
                        },
                        None => {
                            return Err(crate::text::owned("missing pytest `path`"));
                        },
                    };
                    let args = match get(opts, "args") {
                        Some(a) => {
                            if !check_string_list(a) {
                                return Err(crate::text::owned("pytest args must be strings"));
                            }
                            let args = read_string_list(a);
                            args
                        },
                        None => Vec::new(),
                    };
                    assert(given(es@, "pytest"@) == Some(*x));
                    proof {
                        let ghost o = entries_of(given(es@, "pytest"@)->0);
                        assert(o == opts@);
                        if given(o, "args"@) is None {
                            assert(args@.map_values(|a: String| a@) =~= seq![]);
                        }
                    }
                    Some(PytestDefinition { path, args })
                },
                _ => None,
            };
            let verifier = match get(es, "verifier") {
                Some(x) => match x {
                    Value::Null => None,
                    _ => match read_string(x) {
                        Some(s) => Some(s.clone()),
                        None => {
                            return Err(crate::text::owned("`verifier` must be a string"));
                        },
                    },
                },
                None => None,
            };
            let status = match get(es, "status") {
                Some(x) => match read_status(x) {
                    Some(s) => s,
                    None => {
                        return Err(
                            crate::text::owned("test status must be `ok`, `fail` or `error`"),
                        );
                    },
                },
                None => DummyStatus::Success,
            };
            Ok(Test { ansible, pytest, verifier, status })
        },
        _ => Err(crate::text::owned("a test must be a mapping")),
    }
}

/// Whether `v` maps distinct names to tests.
pub open spec fn tests_ok(v: Value) -> bool {
    match untagged(v) {
        Value::Null => true,
        Value::Mapping(es) => {
            &&& forall|i: int| 0 <= i < es.len() ==> string_of((#[trigger] es@[i]).key) is Some
            &&& forall|i: int| 0 <= i < es.len() ==> test_ok((#[trigger] es@[i]).value)
            &&& forall|i: int, j: int|
                0 <= i < j < es.len() ==> string_of(#[trigger] es@[i].key) != string_of(
                    #[trigger] es@[j].key,
                )
        },
        _ => false,
    }
}

/// The names of the tests in `v`, in order.
pub open spec fn test_names(v: Value) -> Seq<Seq<char>> {
    let es = entries_of(v);
    Seq::new(
        es.len(),
        |i: int|
            match string_of(es[i].key) {
                Some(s) => s,
                None => seq![],
            },
    )
}

pub open spec fn names_of_tests(tests: Seq<NamedTest>) -> Seq<Seq<char>> {
    Seq::new(tests.len(), |i: int| tests[i].name@)
}

/// Reads the named tests of a `verify` mapping.
pub fn decode_tests(v: &Value) -> (r: Result<TestMap, String>)
    ensures
        r is Ok <==> tests_ok(*v),
        r matches Ok(m) ==> forall|i: int, j: int|
            0 <= i < j < m.entries@.len() ==> (#[trigger] m.entries@[i]).name@ != (
            #[trigger] m.entries@[j]).name@,
        r matches Ok(m) ==> names_of_tests(m.entries@) == test_names(*v) && forall|i: int|
            0 <= i < m.entries@.len() ==> test_read_from(
                (#[trigger] m.entries@[i]).test,
                entries_of(*v)[i].value,
            ),
{
    let mut out: Vec<NamedTest> = Vec::new();
    match untag(v) {
        Value::Null => {
            assert(names_of_tests(out@) =~= test_names(*v));
            Ok(TestMap { entries: out })
        },
        Value::Mapping(es) => {
            let mut i: usize = 0;
            while i < es.len()
                invariant
                    untagged(*v) == Value::Mapping(*es),
                    i <= es@.len(),
                    out@.len() == i,
                    forall|j: int| 0 <= j < i ==> string_of((#[trigger] es@[j]).key) is Some,
                    forall|j: int| 0 <= j < i ==> test_ok((#[trigger] es@[j]).value),
                    forall|j: int, k: int|
                        0 <= j < k < i ==> string_of(#[trigger] es@[j].key) != string_of(
                            #[trigger] es@[k].key,
                        ),
                    forall|j: int|
                        0 <= j < i ==> Some((#[trigger] out@[j]).name@) == string_of(es@[j].key)
                            && test_read_from(out@[j].test, es@[j].value),
                decreases es.len() - i,
            {
                let name = match read_string(&es[i].key) {
                    Some(n) => n,
                    None => {
                        return Err(crate::text::owned("a test name must be a string"));
                    },
                };
                let mut j: usize = 0;
                while j < i
                    invariant
                        untagged(*v) == Value::Mapping(*es),
                        i < es@.len(),
                        j <= i,
                        string_of(es@[i as int].key) == Some(name@),
                        forall|m: int| 0 <= m < i ==> string_of((#[trigger] es@[m]).key) is Some,
                        forall|m: int|
                            0 <= m < j ==> string_of(#[trigger] es@[m].key) != string_of(
                                es@[i as int].key,
                            ),
                    decreases i - j,
                {
                    let other = read_string(&es[j].key).unwrap();
                    if str_eq(other.as_str(), name.as_str()) {
                        assert(string_of(es@[j as int].key) == string_of(es@[i as int].key));
                        return Err(crate::text::owned("duplicate test name"));
                    }
                    j = j + 1;
                }
                let test = match decode_test(&es[i].value) {
                    Ok(t) => t,
                    Err(reason) => {
                        return Err(reason);
                    },
                };
                out.push(NamedTest { name: name.clone(), test });
                i = i + 1;
            }
            assert(names_of_tests(out@) =~= test_names(*v));
            Ok(TestMap { entries: out })
        },
        _ => Err(crate::text::owned("expected a mapping of named tests")),
    }
}

// ---------------------------------------------------------------------------
// The resolved scenario tree.
/// Whether the phase slots name distinct phases with accepted values.
pub open spec fn phases_ok(phases: Seq<PhaseSlot>) -> bool {
    &&& forall|i: int, j: int|
        0 <= i < j < phases.len() ==> (#[trigger] phases[i]).phase != (#[trigger] phases[j]).phase
    &&& forall|i: int|
        0 <= i < phases.len() && (#[trigger] phases[i]).definition.playbook is Some ==> (
        phases[i].definition.vars matches Some(x) && untagged(x) is Mapping)
}

/// Whether the named tests have distinct names and mapping variables.
pub open spec fn resolved_tests_ok(tests: Seq<NamedTest>) -> bool {
    &&& forall|i: int, j: int|
        0 <= i < j < tests.len() ==> (#[trigger] tests[i]).name@ != (#[trigger] tests[j]).name@
    &&& forall|i: int|
        0 <= i < tests.len() ==> ((#[trigger] tests[i]).test.ansible matches Some(a)
            ==> untagged(a.vars) is Mapping)
}

/// Whether child scenarios have distinct names.
pub open spec fn children_distinct(children: Seq<NamedScenario>) -> bool {
    forall|i: int, j: int|
        0 <= i < j < children.len() ==> (#[trigger] children[i]).name@ != (
        #[trigger] children[j]).name@
}

/// Whether a scenario and all its descendants are well formed.
pub open spec fn scenario_ok(s: Scenario) -> bool
    decreases s,
{
    &&& phases_ok(s.phases@)
    &&& resolved_tests_ok(s.tests.entries@)
    &&& children_distinct(s.scenarios.entries@)
    &&& forall|i: int|
        0 <= i < s.scenarios.entries.len() ==> scenario_ok(
            #[trigger] s.scenarios.entries[i].scenario,
        )
}

/// Whether a scenario declares a phase.
pub open spec fn declares(s: Scenario, phase: ConfiguredPhase) -> bool {
    exists|i: int| 0 <= i < s.phases@.len() && (#[trigger] s.phases@[i]).phase == phase
}

impl Scenario {
    /// Whether this scenario declares `phase`.
    pub fn has_phase(&self, phase: ConfiguredPhase) -> (r: bool)
        ensures
            r == declares(*self, phase),
    {
        let mut i: usize = 0;
        while i < self.phases.len()
            invariant
                i <= self.phases@.len(),
                forall|j: int| 0 <= j < i ==> (#[trigger] self.phases@[j]).phase != phase,
            decreases self.phases.len() - i,
        {
            if self.phases[i].phase == phase {
                return true;
            }
            i = i + 1;
        }
        false
    }

    /// The definition of a declared phase.
    pub fn phase(&self, phase: ConfiguredPhase) -> (r: Option<&PhaseDefinition>)
        ensures
            r is Some == declares(*self, phase),
            r matches Some(d) ==> exists|i: int|
                0 <= i < self.phases@.len() && (#[trigger] self.phases@[i]).phase == phase
                    && self.phases@[i].definition == *d,
    {
        let mut i: usize = 0;
        while i < self.phases.len()
            invariant
                i <= self.phases@.len(),
                forall|j: int| 0 <= j < i ==> (#[trigger] self.phases@[j]).phase != phase,
            decreases self.phases.len() - i,
        {
            if self.phases[i].phase == phase {
                return Some(&self.phases[i].definition);
            }
            i = i + 1;
        }
        None
    }

    /// The document value of a declared phase.
    pub fn phase_value(&self, phase: ConfiguredPhase) -> (r: Option<&Value>)
        ensures
            r is Some == declares(*self, phase),
            r matches Some(v) ==> exists|i: int|
                0 <= i < self.phases@.len() && (#[trigger] self.phases@[i]).phase == phase
                    && self.phases@[i].definition.value == *v,
    {
        match self.phase(phase) {
            Some(definition) => Some(&definition.value),
            None => None,
        }
    }
}

/// The first child with a given name.
pub open spec fn child_named(children: Seq<NamedScenario>, name: Seq<char>) -> Option<Scenario>
    decreases children.len(),
{
    if children.len() == 0 {
        None
    } else if children[0].name@ == name {
        Some(children[0].scenario)
    } else {
        child_named(children.drop_first(), name)
    }
}

impl ScenarioMap {
    /// The scenario with a given name.
    pub fn get(&self, name: &str) -> (r: Option<&Scenario>)
        ensures
            match child_named(self.entries@, name@) {
                Some(s) => r == Some(&s),
                None => r is None,
            },
    {
        let mut i: usize = 0;
        assert(self.entries@.subrange(0, self.entries@.len() as int) =~= self.entries@);
        while i < self.entries.len()
            invariant
                i <= self.entries@.len(),
                child_named(self.entries@, name@) == child_named(
                    self.entries@.subrange(i as int, self.entries@.len() as int),
                    name@,
                ),
            decreases self.entries.len() - i,
        {
            let ghost rest = self.entries@.subrange(i as int, self.entries@.len() as int);
            assert(rest.drop_first() =~= self.entries@.subrange(i + 1, self.entries@.len() as int));
            if str_eq(self.entries[i].name.as_str(), name) {
                return Some(&self.entries[i].scenario);
            }
            i = i + 1;
        }
        None
    }

    /// The children with their names, in declaration order.
    pub fn iter(&self) -> (r: Vec<(&String, &Scenario)>)
        ensures
            r@.len() == self.entries@.len(),
            forall|i: int|
                0 <= i < r@.len() ==> (#[trigger] r@[i]).0 == self.entries@[i].name && r@[i].1
                    == self.entries@[i].scenario,
    {
        let mut r: Vec<(&String, &Scenario)> = Vec::new();
        let mut i: usize = 0;
        while i < self.entries.len()
            invariant
                i <= self.entries@.len(),
                r@.len() == i,
                forall|k: int|
                    0 <= k < i ==> (#[trigger] r@[k]).0 == self.entries@[k].name && r@[k].1
                        == self.entries@[k].scenario,
            decreases self.entries.len() - i,
        {
            r.push((&self.entries[i].name, &self.entries[i].scenario));
            i = i + 1;
        }
        r
    }
}

impl TestMap {
    /// The tests with their names, in declaration order.
    pub fn iter(&self) -> (r: Vec<(&String, &Test)>)
        ensures
            r@.len() == self.entries@.len(),
            forall|i: int|
                0 <= i < r@.len() ==> (#[trigger] r@[i]).0 == self.entries@[i].name && r@[i].1
                    == self.entries@[i].test,
    {
        let mut r: Vec<(&String, &Test)> = Vec::new();
        let mut i: usize = 0;
        while i < self.entries.len()
            invariant
                i <= self.entries@.len(),
                r@.len() == i,
                forall|k: int|
                    0 <= k < i ==> (#[trigger] r@[k]).0 == self.entries@[k].name && r@[k].1
                        == self.entries@[k].test,
            decreases self.entries.len() - i,
        {
            r.push((&self.entries[i].name, &self.entries[i].test));
            i = i + 1;
        }
        r
    }
}

/// The paths of the scenarios of `m` from its `i`-th child on, each
/// followed by the paths below it, depth first in declaration order; the
/// children's paths lie below `prefix` (top-level ones below nothing).
pub open spec fn paths_from(m: ScenarioMap, prefix: Option<Seq<char>>, i: int) -> Seq<Seq<char>>
    decreases m, m.entries@.len() - i,
{
    if i < 0 || i >= m.entries@.len() {
        seq![]
    } else {
        let n = m.entries@[i];
        let p = match prefix {
            Some(q) => child_path(q, n.name@),
            None => n.name@,
        };
        proof {
            assert(decreases_to!(m => m.entries));
            assert(decreases_to!(m => m.entries@[i]));
            assert(decreases_to!(m => m.entries@[i].scenario));
            assert(decreases_to!(m => m.entries@[i].scenario.scenarios));
        }
        seq![p] + paths_from(n.scenario.scenarios, Some(p), 0) + paths_from(m, prefix, i + 1)
    }
}

/// The views of a sequence of strings.
pub open spec fn string_views(v: Seq<String>) -> Seq<Seq<char>> {
    v.map_values(|s: String| s@)
}

/// Appends the paths of the scenarios of `m` and of all below them.
fn collect_paths(m: &ScenarioMap, prefix: Option<&str>, out: &mut Vec<String>)
    ensures
        string_views(final(out)@) == string_views(old(out)@) + paths_from(
            *m,
            match prefix {
                Some(p) => Some(p@),
                None => None,
            },
            0,
        ),
    decreases m,
{
    let ghost pv: Option<Seq<char>> = match prefix {
        Some(p) => Some(p@),
        None => None,
    };
    let ghost start = string_views(out@);
    let mut i: usize = 0;
    assert(string_views(out@) + paths_from(*m, pv, 0) =~= start + paths_from(*m, pv, 0));
    while i < m.entries.len()
        invariant
            i <= m.entries@.len(),
            pv == match prefix {
                Some(p) => Some(p@),
                None => None::<Seq<char>>,
            },
            string_views(out@) + paths_from(*m, pv, i as int) == start + paths_from(*m, pv, 0),
        decreases m.entries.len() - i,
    {
        let named = &m.entries[i];
        let path = match prefix {
            Some(p) => path_with_child(p, named.name.as_str()),
            None => named.name.clone(),
        };
        let ghost before = string_views(out@);
        let ghost pp = path@;
        proof {
            assert(decreases_to!(m => m.entries));
            assert(decreases_to!(m => m.entries@[i as int]));
            assert(decreases_to!(m => m.entries@[i as int].scenario));
            assert(decreases_to!(m => m.entries@[i as int].scenario.scenarios));
        }
        out.push(path.clone());
        assert(string_views(out@) =~= before.push(pp));
        let ghost mid = string_views(out@);
        collect_paths(&named.scenario.scenarios, Some(path.as_str()), out);
        let ghost below = paths_from(named.scenario.scenarios, Some(pp), 0);
        assert(string_views(out@) == mid + below);
        assert(paths_from(*m, pv, i as int) == seq![pp] + below + paths_from(*m, pv, i + 1));
        assert(string_views(out@) + paths_from(*m, pv, i + 1) =~= before + paths_from(*m, pv, i as int));
        i = i + 1;
    }
    assert(string_views(out@) + paths_from(*m, pv, i as int) =~= string_views(out@));
}


// ---------------------------------------------------------------------------
// Resolving scenarios.
/// The value of a field of a scenario body.
pub open spec fn field(v: Value, name: Seq<char>) -> Option<Value> {
    lookup(entries_of(v), name)
}

/// Whether a phase value is an adapter mapping naming `adapter`.
pub open spec fn names_adapter(v: Value, adapter: Seq<char>) -> bool {
    v matches Value::Mapping(es) && lookup(es@, adapter) is Some
}

/// What a dummy adapter named by a phase value is told to produce.
pub open spec fn raw_dummy_status(v: Value) -> DummyStatus {
    match v {
        Value::Mapping(es) => match lookup(es@, "dummy"@) {
            Some(o) => match dummy_options(o) {
                Some(s) => s,
                None => DummyStatus::Success,
            },
            None => DummyStatus::Success,
        },
        _ => DummyStatus::Success,
    }
}

/// The options of an Ansible adapter mapping.
pub open spec fn ansible_options(v: Value) -> Seq<Entry> {
    match v {
        Value::Mapping(es) => match lookup(es@, "ansible"@) {
            Some(o) => entries_of(o),
            None => seq![],
        },
        _ => seq![],
    }
}

/// Whether the `vars` of adapter options, when given, are a mapping.
pub open spec fn vars_mapping(opts: Seq<Entry>) -> bool {
    lookup(opts, "vars"@) matches Some(x) ==> x is Mapping
}

/// What a resolved phase definition holds of the phase value it came from.
pub open spec fn defined_by(d: PhaseDefinition, v: Value) -> bool {
    &&& d.status == raw_dummy_status(v)
    &&& d.dummy_override == names_adapter(v, "dummy"@)
    &&& (d.playbook is Some <==> names_adapter(v, "ansible"@))
    &&& (d.vars is Some <==> d.playbook is Some)
    &&& (d.vars matches Some(x) ==> x is Mapping)
}

/// The entries of the `nested` list of a scenario body.
pub open spec fn nested_entries(v: Value) -> Seq<Value> {
    match field(v, "nested"@) {
        Some(Value::Sequence(items)) => items@,
        _ => seq![],
    }
}

/// The `name` of a nested entry.
pub open spec fn entry_name(e: Value) -> Seq<char> {
    match field(e, "name"@) {
        Some(n) => match string_of(n) {
            Some(s) => s,
            None => seq![],
        },
        None => seq![],
    }
}

pub open spec fn names_of_children(c: Seq<NamedScenario>) -> Seq<Seq<char>> {
    Seq::new(c.len(), |i: int| c[i].name@)
}

/// The names of the children a scenario body declares, in order.
pub open spec fn declared_children(v: Value) -> Seq<Seq<char>> {
    nested_entries(v).map_values(|e: Value| entry_name(e))
}

/// The tests a scenario body declares.
pub open spec fn declared_tests(v: Value) -> Seq<Seq<char>> {
    match given(entries_of(v), "verify"@) {
        Some(t) => test_names(t),
        None => seq![],
    }
}

/// What a resolved scenario holds of the body it was resolved from: the
/// phases whose keys are present, each with an accepted value, the declared
/// tests and the declared children, in order.
pub open spec fn resolved_from(s: Scenario, v: Value) -> bool {
    &&& forall|p: ConfiguredPhase| #[trigger] declares(s, p) <==> field(v, phase_key(p)) is Some
    &&& forall|i: int|
        0 <= i < s.phases@.len() && (#[trigger] s.phases@[i]).phase != ConfiguredPhase::Verify
            ==> (field(v, phase_key(s.phases@[i].phase)) matches Some(x) && phase_value_valid(
            x,
            s.phases@[i].phase,
        ) && defined_by(s.phases@[i].definition, x))
    &&& names_of_tests(s.tests.entries@) == declared_tests(v)
    &&& names_of_children(s.scenarios.entries@) == declared_children(v)
}

/// Whether each child scenario that includes no file was resolved from its
/// nested entry, all the way down.
pub open spec fn children_resolved(m: Seq<NamedScenario>, items: Seq<Value>) -> bool
    decreases m,
{
    forall|i: int|
        0 <= i < m.len() && i < items.len() && !includes_file(#[trigger] items[i]) ==> {
            &&& resolved_from(m[i].scenario, items[i])
            &&& children_resolved(m[i].scenario.scenarios.entries@, nested_entries(items[i]))
        }
}

/// Whether `s` was resolved from the scenario body `v`, its inline
/// children from their entries, and so on down.
pub open spec fn resolved_tree(s: Scenario, v: Value) -> bool {
    &&& resolved_from(s, v)
    &&& children_resolved(s.scenarios.entries@, nested_entries(v))
}

/// An error found after the document's root and version were accepted.
pub open spec fn late_error(e: ConfigError) -> bool {
    !(e is InvalidDocument) && !(e is UnsupportedVersion)
}

/// Whether a nested entry has phases or children of its own.
pub open spec fn inline_content(es: Seq<Entry>) -> bool {
    ||| exists|p: ConfiguredPhase| #[trigger] lookup(es, phase_key(p)) is Some
    ||| lookup(es, "nested"@) matches Some(Value::Sequence(items)) && items.len() > 0
}

fn quoted(before: &str, s: &str, after: &str) -> (r: String)
    ensures
        r@ == before@ + s@ + after@,
{
    let mut r = String::new();
    r.append(before);
    r.append(s);
    r.append(after);
    r
}

/// Resolves the Ansible options of a phase value, with its playbook path
/// made canonical against `base`.
fn resolve_ansible_options<S: ConfigSource>(
    source: &S,
    v: &Value,
    phase: ConfiguredPhase,
    base: &str,
) -> (r: Result<Option<(String, Value)>, String>)
    requires
        phase_value_valid(*v, phase),
    ensures
        r matches Ok(o) ==> (o is Some <==> names_adapter(*v, "ansible"@)) && (o matches Some(
            p,
        ) ==> p.1 is Mapping),
        names_adapter(*v, "ansible"@) && !vars_mapping(ansible_options(*v)) ==> r is Err,
        r is Err ==> names_adapter(*v, "ansible"@),
{
    match v {
        Value::Mapping(es) => {
            let options = match get(es, "ansible") {
                None => {
                    return Ok(None);
                },
                Some(o) => o,
            };
            let opts = match untag(options) {
                Value::Mapping(o) => o,
                _ => {
                    return Err(owned("invalid Ansible options"));
                },
            };
            let playbook = match get(opts, "playbook") {
                Some(p) => match read_string(p) {
                    Some(p) => p,
                    None => {
                        return Err(owned("invalid Ansible options: playbook must be a path"));
                    },
                },
                None => {
                    return Err(owned("invalid Ansible options: missing `playbook`"));
                },
            };
            let vars = match get(opts, "vars") {
                Some(x) => match x {
                    Value::Mapping(_) => copy_value(x),
                    _ => {
                        return Err(owned("Ansible `vars` must be a mapping"));
                    },
                },
                None => empty_mapping(),
            };
            let target = join(base, playbook.as_str());
            match source.canonicalize(target.as_str()) {
                Ok(canonical) => if source.is_file(canonical.as_str()) {
                    Ok(Some((canonical, vars)))
                } else {
                    Err(quoted("playbook `", target.as_str(), "` was not found"))
                },
                Err(_) => Err(quoted("playbook `", target.as_str(), "` was not found")),
            }
        },
        _ => Ok(None),
    }
}

/// Reads the dummy status of an adapter mapping.
fn phase_dummy_status(v: &Value) -> (r: DummyStatus)
    ensures
        r == raw_dummy_status(*v),
{
    match v {
        Value::Mapping(es) => match get(es, "dummy") {
            Some(o) => match parse_dummy_options(o) {
                Ok(s) => s,
                Err(_) => DummyStatus::Success,
            },
            None => DummyStatus::Success,
        },
        _ => DummyStatus::Success,
    }
}

/// Checks a phase value and resolves it into a definition.
fn resolve_phase<S: ConfigSource>(
    source: &S,
    v: &Value,
    phase: ConfiguredPhase,
    base: &str,
) -> (r: Result<PhaseDefinition, String>)
    ensures
        r matches Ok(d) ==> phase_value_valid(*v, phase) && defined_by(d, *v),
        !phase_value_valid(*v, phase) ==> r is Err,
        phase_value_valid(*v, phase) && !names_adapter(*v, "ansible"@) ==> r is Ok,
{
    match validate_phase_value(v, phase) {
        Ok(()) => {},
        Err(reason) => {
            return Err(reason);
        },
    }
    let ansible = match resolve_ansible_options(source, v, phase, base) {
        Ok(a) => a,
        Err(reason) => {
            return Err(reason);
        },
    };
    let dummy_override = match v {
        Value::Mapping(es) => get(es, "dummy").is_some(),
        _ => false,
    };
    let (playbook, vars) = match ansible {
        Some((p, x)) => (Some(p), Some(x)),
        None => (None, None),
    };
    Ok(
        PhaseDefinition {
            value: copy_value(v),
            status: phase_dummy_status(v),
            dummy_override,
            playbook,
            vars,
        },
    )
}

/// One step of collecting phase definitions: `after` is `before` with the
/// definition of `phase` added when the body `es` declares it.
pub open spec fn slot_step(
    before: Seq<PhaseSlot>,
    after: Seq<PhaseSlot>,
    es: Seq<Entry>,
    phase: ConfiguredPhase,
) -> bool {
    match lookup(es, phase_key(phase)) {
        Some(x) => {
            &&& after.len() == before.len() + 1
            &&& after.take(before.len() as int) == before
            &&& after.last().phase == phase
            &&& phase_value_valid(x, phase)
            &&& defined_by(after.last().definition, x)
        },
        None => after == before,
    }
}

/// What the slots collected so far, for the phases in `done`, hold.
pub open spec fn slots_cover(s: Seq<PhaseSlot>, es: Seq<Entry>, done: Set<ConfiguredPhase>) -> bool {
    &&& forall|i: int, j: int| 0 <= i < j < s.len() ==> (#[trigger] s[i]).phase != (#[trigger] s[j]).phase
    &&& forall|i: int|
        0 <= i < s.len() ==> done.contains((#[trigger] s[i]).phase) && lookup(
            es,
            phase_key(s[i].phase),
        ) is Some
    &&& forall|p: ConfiguredPhase|
        done.contains(p) && (#[trigger] lookup(es, phase_key(p))) is Some ==> exists|i: int|
            0 <= i < s.len() && (#[trigger] s[i]).phase == p
    &&& forall|i: int|
        0 <= i < s.len() && (#[trigger] s[i]).phase != ConfiguredPhase::Verify ==> (lookup(
            es,
            phase_key(s[i].phase),
        ) matches Some(x) && phase_value_valid(x, s[i].phase) && defined_by(s[i].definition, x))
    &&& forall|i: int|
        0 <= i < s.len() && (#[trigger] s[i]).definition.playbook is Some ==> (
        s[i].definition.vars matches Some(x) && x is Mapping)
}

proof fn lemma_slot_step(
    before: Seq<PhaseSlot>,
    after: Seq<PhaseSlot>,
    es: Seq<Entry>,
    done: Set<ConfiguredPhase>,
    phase: ConfiguredPhase,
)
    requires
        slots_cover(before, es, done),
        slot_step(before, after, es, phase),
        !done.contains(phase),
    ensures
        slots_cover(after, es, done.insert(phase)),
{
    let d2 = done.insert(phase);
    if lookup(es, phase_key(phase)) is Some {
        assert forall|i: int| 0 <= i < before.len() implies after[i] == before[i] by {
            assert(after.take(before.len() as int)[i] == after[i]);
        }
        assert forall|p: ConfiguredPhase|
            d2.contains(p) && (#[trigger] lookup(es, phase_key(p))) is Some implies exists|i: int|
                0 <= i < after.len() && (#[trigger] after[i]).phase == p by {
            if p == phase {
                assert(after[before.len() as int].phase == p);
            } else {
                let i = choose|i: int| 0 <= i < before.len() && (#[trigger] before[i]).phase == p;
                assert(after[i].phase == p);
            }
        }
    }
}

/// Adds the definition of `phase` when the scenario body `es` declares it.
fn add_phase<S: ConfigSource>(
    source: &S,
    es: &Vec<Entry>,
    phase: ConfiguredPhase,
    base: &str,
    path: &str,
    phases: &mut Vec<PhaseSlot>,
) -> (r: Result<(), ConfigError>)
    ensures
        r is Ok ==> slot_step(old(phases)@, final(phases)@, es@, phase),
        r matches Err(e) ==> late_error(e),
        r matches Err(e) ==> !(e is InvalidDefault),
        (lookup(es@, phase_key(phase)) matches Some(x) ==> phase_value_valid(x, phase)
            && !names_adapter(x, "ansible"@)) ==> r is Ok,
{
    let key = configured_phase_name(phase);
    match get(es, key) {
        None => Ok(()),
        Some(x) => match resolve_phase(source, x, phase, base) {
            Ok(definition) => {
                phases.push(PhaseSlot { phase, definition });
                assert(phases@.take(old(phases)@.len() as int) =~= old(phases)@);
                Ok(())
            },
            Err(reason) => Err(
                ConfigError::InvalidPhase { scenario: owned(path), phase, reason },
            ),
        },
    }
}

/// Whether `stack` holds `path`.
/// Whether an include may be read, given what the configuration source
/// answered when asked for the canonical form of `include_path`: a file
/// that cannot be found is a read error naming `include_path`, and a file
/// already being included is an include cycle.
pub fn admit_include(include_path: String, found: Result<String, String>, include_stack: &Vec<String>) -> (r:
    Result<String, ConfigError>)
    ensures
        found matches Err(reason) ==> r == Err::<String, ConfigError>(
            ConfigError::ReadInclude { path: include_path, reason },
        ),
        found matches Ok(c) ==> (exists|i: int|
            0 <= i < include_stack@.len() && (#[trigger] include_stack@[i])@ == c@) ==> r
            == Err::<String, ConfigError>(ConfigError::IncludeCycle(c)),
        found matches Ok(c) ==> !(exists|i: int|
            0 <= i < include_stack@.len() && (#[trigger] include_stack@[i])@ == c@) ==> r == Ok::<
            String,
            ConfigError,
        >(c),
{
    match found {
        Ok(canonical) => {
            if stack_contains(include_stack, canonical.as_str()) {
                Err(ConfigError::IncludeCycle(canonical))
            } else {
                Ok(canonical)
            }
        },
        Err(reason) => Err(ConfigError::ReadInclude { path: include_path, reason }),
    }
}

fn stack_contains(stack: &Vec<String>, path: &str) -> (r: bool)
    ensures
        r == exists|i: int| 0 <= i < stack@.len() && (#[trigger] stack@[i])@ == path@,
{
    let mut i: usize = 0;
    while i < stack.len()
        invariant
            i <= stack@.len(),
            forall|j: int| 0 <= j < i ==> (#[trigger] stack@[j])@ != path@,
        decreases stack.len() - i,
    {
        if str_eq(stack[i].as_str(), path) {
            return true;
        }
        i = i + 1;
    }
    false
}

/// Whether the nested entry `es` has phases or children of its own.
fn has_inline_content(es: &Vec<Entry>) -> (r: bool)
    ensures
        r == inline_content(es@),
{
    let order: [ConfiguredPhase; 7] = [
        ConfiguredPhase::Create,
        ConfiguredPhase::Prepare,
        ConfiguredPhase::Converge,
        ConfiguredPhase::Idempotence,
        ConfiguredPhase::Verify,
        ConfiguredPhase::Cleanup,
        ConfiguredPhase::Destroy,
    ];
    let mut k: usize = 0;
    while k < 7
        invariant
            k <= 7,
            forall|j: int| 0 <= j < k ==> lookup(es@, phase_key(#[trigger] order@[j])) is None,
            order@ == seq![
                ConfiguredPhase::Create,
                ConfiguredPhase::Prepare,
                ConfiguredPhase::Converge,
                ConfiguredPhase::Idempotence,
                ConfiguredPhase::Verify,
                ConfiguredPhase::Cleanup,
                ConfiguredPhase::Destroy,
            ],
        decreases 7 - k,
    {
        if get(es, configured_phase_name(order[k])).is_some() {
            assert(lookup(es@, phase_key(order@[k as int])) is Some);
            return true;
        }
        k = k + 1;
    }
    assert forall|p: ConfiguredPhase| #[trigger] lookup(es@, phase_key(p)) is None by {
        match p {
            ConfiguredPhase::Create => assert(order@[0] == p),
            ConfiguredPhase::Prepare => assert(order@[1] == p),
            ConfiguredPhase::Converge => assert(order@[2] == p),
            ConfiguredPhase::Idempotence => assert(order@[3] == p),
            ConfiguredPhase::Verify => assert(order@[4] == p),
            ConfiguredPhase::Cleanup => assert(order@[5] == p),
            ConfiguredPhase::Destroy => assert(order@[6] == p),
        }
    }
    match get(es, "nested") {
        Some(Value::Sequence(items)) => items.len() > 0,
        _ => false,
    }
}


/// Resolves the tests of a scenario: playbooks and pytest paths are made
/// canonical against `base`.
/// Whether no test refers to a file: none has Ansible or pytest options.
pub open spec fn tests_without_files(ts: Seq<NamedTest>) -> bool {
    forall|j: int| 0 <= j < ts.len() ==> (#[trigger] ts[j]).test.ansible is None && ts[j].test.pytest is None
}

/// Whether the phases and tests of a scenario body resolve without reading
/// anything: its phase values are usable and name no Ansible playbook, and
/// its tests are well formed and name no playbook or pytest path.
pub open spec fn own_self_contained(es: Seq<Entry>) -> bool {
    &&& forall|p: ConfiguredPhase|
        p != ConfiguredPhase::Verify ==> (#[trigger] lookup(es, phase_key(p)) matches Some(x)
            ==> phase_value_valid(x, p) && !names_adapter(x, "ansible"@))
    &&& given(es, "verify"@) matches Some(t) ==> tests_ok(t) && forall|i: int|
        0 <= i < entries_of(t).len() ==> given(
            entries_of(#[trigger] entries_of(t)[i].value),
            "ansible"@,
        ) is None && given(entries_of(entries_of(t)[i].value), "pytest"@) is None
}

/// Whether a nested entry includes a file.
pub open spec fn includes_file(e: Value) -> bool {
    lookup(entries_of(e), "include"@) matches Some(x) && !(x is Null)
}

/// Whether the first `i` nested entries have distinct names, include
/// nothing and are self-contained.
pub open spec fn clean_entries(items: Seq<Value>, i: int) -> bool {
    &&& forall|a: int, b: int|
        0 <= a < b < i ==> entry_name(#[trigger] items[a]) != entry_name(#[trigger] items[b])
    &&& forall|a: int| 0 <= a < i ==> !includes_file(#[trigger] items[a]) && self_contained(items[a])
}

/// Whether the `i`-th nested entry repeats the name of an earlier one.
pub open spec fn duplicate_at(items: Seq<Value>, i: int) -> bool {
    exists|j: int| 0 <= j < i && entry_name(#[trigger] items[j]) == entry_name(items[i])
}

/// Whether the `i`-th nested entry is the first one that is refused without
/// reading anything: it repeats an earlier name, or it combines an include
/// with inline content, while the body's own phases and tests and every
/// earlier entry resolve without reading anything.
pub open spec fn first_refused(es: Seq<Entry>, items: Seq<Value>, i: int) -> bool {
    &&& 0 <= i < items.len()
    &&& own_self_contained(es)
    &&& clean_entries(items, i)
    &&& (duplicate_at(items, i) || (includes_file(items[i]) && inline_content(entries_of(items[i]))))
}

/// When no entry before the `i`-th is refused at once and the `i`-th is not
/// clean, the `i`-th is the only entry that can be refused at once.
proof fn lemma_refused_here(es: Seq<Entry>, items: Seq<Value>, i: int)
    requires
        0 <= i < items.len(),
        forall|m: int| 0 <= m < i ==> !first_refused(es, items, m),
        duplicate_at(items, i) || includes_file(items[i]) || !self_contained(items[i]),
    ensures
        forall|m: int| #[trigger] first_refused(es, items, m) ==> m == i,
{
    assert forall|m: int| #[trigger] first_refused(es, items, m) implies m == i by {
        if m > i {
            assert(clean_entries(items, m));
            assert(!includes_file(items[i]) && self_contained(items[i]));
            if duplicate_at(items, i) {
                let j = choose|j: int| 0 <= j < i && entry_name(#[trigger] items[j]) == entry_name(items[i]);
                assert(entry_name(items[j]) != entry_name(items[i]));
            }
        }
    }
}

/// Whether a scenario body resolves without reading anything: its phase
/// values are usable and name no Ansible playbook, its tests are well formed
/// and name no playbook or pytest path, and its children have distinct
/// names, include nothing and are themselves self-contained.
pub open spec fn self_contained(v: Value) -> bool
    decreases v,
{
    match v {
        Value::Null => true,
        Value::Mapping(es) => {
            &&& own_self_contained(es@)
            &&& forall|i: int|
                0 <= i < es.len() && is_key((#[trigger] es[i]).key, "nested"@)
                    ==> nested_self_contained(es[i].value)
        },
        _ => false,
    }
}

/// Whether the entries of a `nested` list have distinct names, include
/// nothing and are self-contained.
pub open spec fn nested_self_contained(v: Value) -> bool
    decreases v,
{
    match v {
        Value::Null => true,
        Value::Sequence(items) => {
            &&& forall|i: int, j: int|
                0 <= i < j < items.len() ==> entry_name(#[trigger] items[i]) != entry_name(
                    #[trigger] items[j],
                )
            &&& forall|i: int|
                0 <= i < items.len() ==> (lookup(entries_of(#[trigger] items[i]), "include"@) matches Some(
                    x,
                ) ==> x is Null) && self_contained(items[i])
        },
        _ => false,
    }
}

fn resolve_tests<S: ConfigSource>(source: &S, tests: TestMap, base: &str, path: &str) -> (r:
    Result<TestMap, ConfigError>)
    requires
        forall|i: int, j: int|
            0 <= i < j < tests.entries@.len() ==> (#[trigger] tests.entries@[i]).name@ != (
            #[trigger] tests.entries@[j]).name@,
    ensures
        r matches Ok(m) ==> names_of_tests(m.entries@) == names_of_tests(tests.entries@)
            && resolved_tests_ok(m.entries@),
        r matches Err(e) ==> late_error(e),
        r matches Err(e) ==> !(e is InvalidDefault),
        tests_without_files(tests.entries@) ==> r is Ok,
{
    let ghost original = tests.entries@;
    let TestMap { entries } = tests;
    let mut out: Vec<NamedTest> = Vec::new();
    let mut rest = entries;
    while rest.len() > 0
        invariant
            out@.len() + rest@.len() == original.len(),
            rest@ == original.subrange(out@.len() as int, original.len() as int),
            forall|j: int| 0 <= j < out@.len() ==> (#[trigger] out@[j]).name@ == original[j].name@,
            forall|i: int, j: int|
                0 <= i < j < original.len() ==> (#[trigger] original[i]).name@ != (
                #[trigger] original[j]).name@,
            forall|j: int|
                0 <= j < out@.len() ==> ((#[trigger] out@[j]).test.ansible matches Some(a)
                    ==> a.vars is Mapping),
            tests_without_files(tests.entries@) ==> tests_without_files(original),
        decreases rest.len(),
    {
        let ghost k = out@.len();
        let NamedTest { name, test } = rest.remove(0);
        assert(name@ == original[k as int].name@);
        assert(test == original[k as int].test);
        let test_path = quoted("", path, "::");
        let test_path = quoted(test_path.as_str(), name.as_str(), "");
        let Test { ansible, pytest, verifier, status } = test;
        let ansible = match ansible {
            Some(a) => {
                let AnsibleDefinition { playbook, vars } = a;
                if !matches!(vars, Value::Mapping(_)) || playbook.unicode_len() == 0 {
                    return Err(
                        ConfigError::InvalidTest {
                            path: test_path,
                            reason: owned("Ansible requires a nonempty playbook and vars mapping"),
                        },
                    );
                }
                let target = join(base, playbook.as_str());
                let canonical = match source.canonicalize(target.as_str()) {
                    Ok(c) => c,
                    Err(_) => {
                        return Err(
                            ConfigError::InvalidTest {
                                path: test_path,
                                reason: quoted("playbook `", target.as_str(), "` was not found"),
                            },
                        );
                    },
                };
                if !source.is_file(canonical.as_str()) {
                    return Err(
                        ConfigError::InvalidTest {
                            path: test_path,
                            reason: quoted("playbook `", target.as_str(), "` was not found"),
                        },
                    );
                }
                Some(AnsibleDefinition { playbook: canonical, vars })
            },
            None => None,
        };
        let pytest = match pytest {
            Some(p) => {
                let PytestDefinition { path: test_file, args } = p;
                if test_file.unicode_len() == 0 {
                    return Err(
                        ConfigError::InvalidTest {
                            path: test_path,
                            reason: owned("pytest path must not be empty"),
                        },
                    );
                }
                let target = join(base, test_file.as_str());
                let canonical = match source.canonicalize(target.as_str()) {
                    Ok(c) => c,
                    Err(error) => {
                        return Err(
                            ConfigError::InvalidTest {
                                path: test_path,
                                reason: quoted("cannot resolve pytest path: ", error.as_str(), ""),
                            },
                        );
                    },
                };
                Some(PytestDefinition { path: canonical, args })
            },
            None => None,
        };
        out.push(NamedTest { name, test: Test { ansible, pytest, verifier, status } });
        assert(rest@ =~= original.subrange(out@.len() as int, original.len() as int));
    }
    assert(names_of_tests(out@) =~= names_of_tests(original));
    assert forall|i: int, j: int| 0 <= i < j < out@.len() implies (#[trigger] out@[i]).name@ != (
        #[trigger] out@[j]).name@ by {
        assert(original[i].name@ != original[j].name@);
    }
    Ok(TestMap { entries: out })
}


/// Resolves a scenario body (or the body of a nested entry) into a scenario:
/// its phases, its tests, and its children, inline or included from other
/// files.  Included files are read through `source`, relative to `base`,
/// the directory of the file that includes them; a file that includes
/// itself, directly or through others, is refused.  `include_stack` holds
/// the files being included; `source_material` receives the text of every
/// included file.  `depth` bounds how deep includes may go.
#[verifier::rlimit(60)]
pub fn resolve_scenario<S: ConfigSource>(
    source: &S,
    raw: &Value,
    base: &str,
    include_stack: &mut Vec<String>,
    source_material: &mut String,
    path: &str,
    depth: usize,
) -> (r: Result<Scenario, ConfigError>)
    requires
        raw_scenario_ok(*raw, false) || raw_scenario_ok(*raw, true),
    ensures
        final(include_stack)@ == old(include_stack)@,
        has_prefix(final(source_material)@, old(source_material)@),
        r matches Ok(s) ==> scenario_ok(s) && resolved_from(s, *raw),
        r matches Ok(s) ==> resolved_tree(s, *raw),
        given(entries_of(*raw), "verify"@) matches Some(t) && !tests_ok(t) ==> (r matches Err(
            ConfigError::InvalidPhase { scenario, phase, .. },
        ) && scenario@ == path@ && phase == ConfiguredPhase::Verify),
        r matches Err(e) ==> late_error(e),
        r matches Err(e) ==> !(e is InvalidDefault),
        self_contained(*raw) ==> r is Ok,
        forall|i: int|
            #[trigger] first_refused(entries_of(*raw), nested_entries(*raw), i) && duplicate_at(
                nested_entries(*raw),
                i,
            ) ==> (r matches Err(ConfigError::InvalidScenario { path: p, reason }) && p@ == child_path(
                path@,
                entry_name(nested_entries(*raw)[i]),
            ) && reason@ == "duplicate sibling name"@),
        forall|i: int|
            #[trigger] first_refused(entries_of(*raw), nested_entries(*raw), i) && !duplicate_at(
                nested_entries(*raw),
                i,
            ) ==> (r matches Err(ConfigError::IncludeWithInlineContent(p)) && p@ == child_path(
                path@,
                entry_name(nested_entries(*raw)[i]),
            )),
    decreases depth, raw,
{
    let empty: Vec<Entry> = Vec::new();
    let es: &Vec<Entry> = match raw {
        Value::Mapping(es) => es,
        _ => &empty,
    };
    assert(es@ == entries_of(*raw));
    assert(has_prefix(source_material@, old(source_material)@)) by {
        assert(source_material@.subrange(0, source_material@.len() as int) =~= source_material@);
    }
    // Phases, in the order the lifecycle runs them.
    let mut phases: Vec<PhaseSlot> = Vec::new();
    let mut tests = TestMap { entries: Vec::new() };
    match get(es, "verify") {
        Some(x) => {
            if !matches!(x, Value::Null) {
                match decode_tests(x) {
                    Ok(t) => {
                        tests = t;
                    },
                    Err(reason) => {
                        return Err(
                            ConfigError::InvalidPhase {
                                scenario: owned(path),
                                phase: ConfiguredPhase::Verify,
                                reason: quoted(
                                    "verify must be a mapping of named tests: ",
                                    reason.as_str(),
                                    "",
                                ),
                            },
                        );
                    },
                }
            }
            phases.push(
                PhaseSlot {
                    phase: ConfiguredPhase::Verify,
                    definition: PhaseDefinition {
                        value: Value::Null,
                        status: DummyStatus::Success,
                        dummy_override: false,
                        playbook: None,
                        vars: None,
                    },
                },
            );
        },
        None => {},
    }
    assert(own_self_contained(es@) ==> tests_without_files(tests.entries@)) by {
        if own_self_contained(es@) {
            if let Some(t) = given(entries_of(*raw), "verify"@) {
                assert(tests_ok(t));
                assert forall|j: int| 0 <= j < tests.entries@.len() implies (
                #[trigger] tests.entries@[j]).test.ansible is None && tests.entries@[j].test.pytest is None by {
                    assert(names_of_tests(tests.entries@).len() == tests.entries@.len());
                    assert(test_names(t).len() == entries_of(t).len());
                    assert(test_read_from(tests.entries@[j].test, entries_of(t)[j].value));
                }
            }
        }
    }
    let ghost p0 = phases@;
    match add_phase(source, es, ConfiguredPhase::Create, base, path, &mut phases) {
        Ok(()) => {},
        Err(e) => {
            return Err(e);
        },
    }
    let ghost p1 = phases@;
    match add_phase(source, es, ConfiguredPhase::Prepare, base, path, &mut phases) {
        Ok(()) => {},
        Err(e) => {
            return Err(e);
        },
    }
    let ghost p2 = phases@;
    match add_phase(source, es, ConfiguredPhase::Converge, base, path, &mut phases) {
        Ok(()) => {},
        Err(e) => {
            return Err(e);
        },
    }
    let ghost p3 = phases@;
    match add_phase(source, es, ConfiguredPhase::Idempotence, base, path, &mut phases) {
        Ok(()) => {},
        Err(e) => {
            return Err(e);
        },
    }
    let ghost p4 = phases@;
    match add_phase(source, es, ConfiguredPhase::Cleanup, base, path, &mut phases) {
        Ok(()) => {},
        Err(e) => {
            return Err(e);
        },
    }
    let ghost p5 = phases@;
    match add_phase(source, es, ConfiguredPhase::Destroy, base, path, &mut phases) {
        Ok(()) => {},
        Err(e) => {
            return Err(e);
        },
    }
    proof {
        let d0 = Set::<ConfiguredPhase>::empty().insert(ConfiguredPhase::Verify);
        assert(slots_cover(p0, es@, d0)) by {
            if lookup(es@, "verify"@) is Some {
                assert(p0[0].phase == ConfiguredPhase::Verify);
            }
        }
        lemma_slot_step(p0, p1, es@, d0, ConfiguredPhase::Create);
        let d1 = d0.insert(ConfiguredPhase::Create);
        lemma_slot_step(p1, p2, es@, d1, ConfiguredPhase::Prepare);
        let d2 = d1.insert(ConfiguredPhase::Prepare);
        lemma_slot_step(p2, p3, es@, d2, ConfiguredPhase::Converge);
        let d3 = d2.insert(ConfiguredPhase::Converge);
        lemma_slot_step(p3, p4, es@, d3, ConfiguredPhase::Idempotence);
        let d4 = d3.insert(ConfiguredPhase::Idempotence);
        lemma_slot_step(p4, p5, es@, d4, ConfiguredPhase::Cleanup);
        let d5 = d4.insert(ConfiguredPhase::Cleanup);
        lemma_slot_step(p5, phases@, es@, d5, ConfiguredPhase::Destroy);
        let d6 = d5.insert(ConfiguredPhase::Destroy);
        assert forall|p: ConfiguredPhase| d6.contains(p) by {
            match p {
                ConfiguredPhase::Create => {},
                ConfiguredPhase::Prepare => {},
                ConfiguredPhase::Converge => {},
                ConfiguredPhase::Idempotence => {},
                ConfiguredPhase::Verify => {},
                ConfiguredPhase::Cleanup => {},
                ConfiguredPhase::Destroy => {},
            }
        }
    }
    // Children, inline or included.
    let mut children: Vec<NamedScenario> = Vec::new();
    let ghost entries: Seq<Value> = nested_entries(*raw);
    match find_key(es, "nested") {
        Some(k) => match &es[k].value {
            Value::Sequence(items) => {
                assert(entries == items@);
                assert(nested_list_ok(es@[k as int].value));
                let mut i: usize = 0;
                while i < items.len()
                    invariant
                        raw_scenario_ok(*raw, false) || raw_scenario_ok(*raw, true),
                        *raw == Value::Mapping(*es),
                        k < es@.len(),
                        is_key(es@[k as int].key, "nested"@),
                        es@[k as int].value == Value::Sequence(*items),
                        self_contained(*raw) ==> nested_self_contained(Value::Sequence(*items)),
                        self_contained(*raw) ==> tests_without_files(tests.entries@),
                        given(entries_of(*raw), "verify"@) matches Some(t) ==> tests_ok(t),
                        own_self_contained(es@) ==> tests_without_files(tests.entries@),
                        entries == nested_entries(*raw),
                        es@ == entries_of(*raw),
                        forall|m: int| 0 <= m < i ==> !first_refused(es@, entries, m),
                        entries == items@,
                        i <= items@.len(),
                        forall|j: int| 0 <= j < items.len() ==> raw_scenario_ok(#[trigger] items[j], true),
                        children@.len() == i,
                        names_of_children(children@) == entries.take(i as int).map_values(
                            |e: Value| entry_name(e),
                        ),
                        children_distinct(children@),
                        forall|j: int|
                            0 <= j < children@.len() ==> scenario_ok(
                                #[trigger] children@[j].scenario,
                            ),
                        forall|j: int|
                            0 <= j < children@.len() && !includes_file(#[trigger] entries[j])
                                ==> resolved_tree(children@[j].scenario, entries[j]),
                        include_stack@ == old(include_stack)@,
                        has_prefix(source_material@, old(source_material)@),
                    decreases items.len() - i,
                {
                    let entry = &items[i];
                    assert(raw_scenario_ok(*entry, true));
                    let entry_es = match entry {
                        Value::Mapping(e) => e,
                        _ => {
                            return Err(ConfigError::Parse(owned("a nested scenario must be a mapping")));
                        },
                    };
                    let name = match get(entry_es, "name") {
                        Some(n) => match read_string(n) {
                            Some(n) => n,
                            None => {
                                return Err(ConfigError::Parse(owned("a nested scenario name must be a string")));
                            },
                        },
                        None => {
                            return Err(ConfigError::Parse(owned("a nested scenario needs a `name`")));
                        },
                    };
                    assert(name@ == entry_name(*entry));
                    let child_path = path_with_child(path, name.as_str());
                    let mut j: usize = 0;
                    #[verifier::loop_isolation(false)]
                    while j < children.len()
                        invariant
                            j <= children@.len(),
                            include_stack@ == old(include_stack)@,
                            has_prefix(source_material@, old(source_material)@),
                            forall|m: int| 0 <= m < j ==> (#[trigger] children@[m]).name@ != name@,
                        decreases children.len() - j,
                    {
                        if str_eq(children[j].name.as_str(), name.as_str()) {
                            proof {
                                assert(names_of_children(children@)[j as int] == children@[j as int].name@);
                                assert(entry_name(items@[j as int]) == entry_name(items@[i as int]));
                                assert(duplicate_at(entries, i as int));
                                lemma_refused_here(es@, entries, i as int);
                            }
                            return Err(
                                ConfigError::InvalidScenario {
                                    path: child_path,
                                    reason: owned("duplicate sibling name"),
                                },
                            );
                        }
                        j = j + 1;
                    }
                    assert(!duplicate_at(entries, i as int)) by {
                        if duplicate_at(entries, i as int) {
                            let m = choose|m: int| 0 <= m < i && entry_name(#[trigger] entries[m]) == entry_name(entries[i as int]);
                            assert(names_of_children(children@)[m] == children@[m].name@);
                        }
                    }
                    let included_path = match get(entry_es, "include") {
                        Some(x) => match x {
                            Value::Null => None,
                            _ => read_string(x),
                        },
                        None => None,
                    };
                    let resolved = match included_path {
                        Some(included) => {
                            assert(includes_file(entries[i as int]));
                            proof {
                                lemma_refused_here(es@, entries, i as int);
                            }
                            if has_inline_content(entry_es) {
                                return Err(ConfigError::IncludeWithInlineContent(child_path));
                            }
                            assert(!first_refused(es@, entries, i as int));
                            assert(forall|m: int| !first_refused(es@, entries, m));
                            let include_path = join(base, included.as_str());
                            if depth == 0 {
                                return Err(
                                    ConfigError::ReadInclude {
                                        path: include_path,
                                        reason: owned("scenario includes are nested too deeply"),
                                    },
                                );
                            }
                            let found = source.canonicalize(include_path.as_str());
                            let canonical = match admit_include(include_path, found, include_stack) {
                                Ok(c) => c,
                                Err(e) => {
                                    return Err(e);
                                },
                            };
                            let text = match source.read_to_string(canonical.as_str()) {
                                Ok(t) => t,
                                Err(reason) => {
                                    return Err(ConfigError::ReadInclude { path: canonical, reason });
                                },
                            };
                            let ghost before = source_material@;
                            source_material.append("\n-- included scenario: ");
                            source_material.append(canonical.as_str());
                            source_material.append(" --\n");
                            source_material.append(text.as_str());
                            assert(has_prefix(source_material@, before)) by {
                                assert(source_material@.subrange(0, before.len() as int) =~= before);
                            }
                            assert(has_prefix(source_material@, old(source_material)@)) by {
                                assert(source_material@.subrange(0, old(source_material)@.len() as int)
                                    =~= before.subrange(0, old(source_material)@.len() as int));
                            }
                            let document = match source.parse_yaml(text.as_str()) {
                                Ok(d) => d,
                                Err(reason) => {
                                    return Err(ConfigError::Parse(reason));
                                },
                            };
                            match check_raw_scenario(&document, false) {
                                Ok(()) => {},
                                Err(e) => {
                                    return Err(e);
                                },
                            }
                            let ghost mid = source_material@;
                            let child_base = parent_or_dot(canonical.as_str());
                            include_stack.push(canonical);
                            let result = resolve_scenario(
                                source,
                                &document,
                                child_base.as_str(),
                                include_stack,
                                source_material,
                                child_path.as_str(),
                                depth - 1,
                            );
                            include_stack.pop();
                            assert(include_stack@ =~= old(include_stack)@);
                            proof {
                                lemma_prefix_trans(source_material@, mid, old(source_material)@);
                            }
                            match result {
                                Ok(s) => s,
                                Err(e) => {
                                    return Err(e);
                                },
                            }
                        },
                        None => {
                            proof {
                                assert(decreases_to!(raw => raw->Mapping_0));
                                assert(decreases_to!(raw => es@[k as int]));
                                assert(decreases_to!(raw => es@[k as int].value));
                                assert(decreases_to!(raw => es@[k as int].value->Sequence_0));
                                assert(decreases_to!(raw => items[i as int]));
                            }
                            let ghost mid = source_material@;
                            let result = resolve_scenario(
                                source,
                                entry,
                                base,
                                include_stack,
                                source_material,
                                child_path.as_str(),
                                depth,
                            );
                            proof {
                                lemma_prefix_trans(source_material@, mid, old(source_material)@);
                            }
                            match result {
                                Ok(s) => s,
                                Err(e) => {
                                    proof {
                                        assert(!self_contained(entries[i as int]));
                                        lemma_refused_here(es@, entries, i as int);
                                        assert(!first_refused(es@, entries, i as int));
                                        assert(forall|m: int| !first_refused(es@, entries, m));
                                    }
                                    return Err(e);
                                },
                            }
                        },
                    };
                    assert(!first_refused(es@, entries, i as int));
                    let ghost before_children = children@;
                    children.push(NamedScenario { name: name.clone(), scenario: resolved });
                    proof {
                        assert(entries.take(i + 1) =~= entries.take(i as int).push(entries[i as int]));
                        assert(names_of_children(children@) =~= names_of_children(before_children).push(
                            name@,
                        ));
                        assert(names_of_children(children@) =~= entries.take(i + 1).map_values(
                            |e: Value| entry_name(e),
                        ));
                    }
                    i = i + 1;
                }
                assert(entries.take(items@.len() as int) =~= entries);
                assert(forall|m: int| !first_refused(es@, entries, m));
            },
            _ => {
                assert(entries =~= seq![]);
                assert(names_of_children(children@) =~= seq![]);
            },
        },
        None => {
            assert(names_of_children(children@) =~= seq![]);
        },
    }
    assert(forall|m: int| !first_refused(es@, entries, m));
    let tests = match resolve_tests(source, tests, base, path) {
        Ok(t) => t,
        Err(e) => {
            return Err(e);
        },
    };
    let scenario = Scenario { phases, tests, scenarios: ScenarioMap { entries: children } };
    // The parts of `scenario_ok` and `resolved_from`, one by one.
    assert(phases_ok(scenario.phases@));
    assert(resolved_tests_ok(scenario.tests.entries@));
    assert(children_distinct(scenario.scenarios.entries@));
    assert(scenario_ok(scenario));
    assert(forall|p: ConfiguredPhase| #[trigger] declares(scenario, p) <==> field(*raw, phase_key(p)) is Some);
    assert(names_of_tests(scenario.tests.entries@) == declared_tests(*raw));
    assert(names_of_children(scenario.scenarios.entries@) == declared_children(*raw));
    Ok(scenario)
}


/// The names of a mapping of named scenarios, in order.
pub open spec fn scenario_names(v: Value) -> Seq<Seq<char>> {
    let es = entries_of(v);
    Seq::new(
        es.len(),
        |i: int|
            match string_of(es[i].key) {
                Some(s) => s,
                None => seq![],
            },
    )
}

/// What a resolved mapping of named scenarios holds of the value it came
/// from: the same names, in order, each resolved from its body.
pub open spec fn named_resolved_from(m: Seq<NamedScenario>, v: Value) -> bool {
    &&& names_of_children(m) == scenario_names(v)
    &&& children_distinct(m)
    &&& forall|i: int|
        0 <= i < m.len() ==> scenario_ok((#[trigger] m[i]).scenario) && resolved_tree(
            m[i].scenario,
            entries_of(v)[i].value,
        )
}

/// Whether every scenario of a mapping of named scenarios resolves without
/// reading anything.
pub open spec fn named_self_contained(v: Value) -> bool {
    forall|i: int| 0 <= i < entries_of(v).len() ==> self_contained(#[trigger] entries_of(v)[i].value)
}

/// Resolves a mapping of named scenarios (see [`resolve_scenario`]).
pub fn resolve_named_scenarios<S: ConfigSource>(
    source: &S,
    v: &Value,
    base: &str,
    include_stack: &mut Vec<String>,
    source_material: &mut String,
    depth: usize,
) -> (r: Result<ScenarioMap, ConfigError>)
    requires
        named_scenarios_ok(*v),
    ensures
        final(include_stack)@ == old(include_stack)@,
        has_prefix(final(source_material)@, old(source_material)@),
        r matches Ok(m) ==> named_resolved_from(m.entries@, *v),
        r matches Err(e) ==> late_error(e),
        r matches Err(e) ==> !(e is InvalidDefault),
        named_self_contained(*v) ==> r is Ok,
{
    let mut out: Vec<NamedScenario> = Vec::new();
    assert(has_prefix(source_material@, old(source_material)@)) by {
        assert(source_material@.subrange(0, source_material@.len() as int) =~= source_material@);
    }
    match untag(v) {
        Value::Mapping(es) => {
            let mut i: usize = 0;
            while i < es.len()
                invariant
                    named_scenarios_ok(*v),
                    untagged(*v) == Value::Mapping(*es),
                    i <= es@.len(),
                    out@.len() == i,
                    forall|j: int| 0 <= j < i ==> Some((#[trigger] out@[j]).name@) == string_of(es@[j].key),
                    forall|j: int|
                        0 <= j < i ==> scenario_ok((#[trigger] out@[j]).scenario) && resolved_tree(
                            out@[j].scenario,
                            es@[j].value,
                        ),
                    include_stack@ == old(include_stack)@,
                    has_prefix(source_material@, old(source_material)@),
                    entries_of(*v) == es@,
                decreases es.len() - i,
            {
                let name = read_string(&es[i].key).unwrap();
                assert(raw_scenario_ok(es@[i as int].value, false));
                let ghost mid = source_material@;
                let result = resolve_scenario(
                    source,
                    &es[i].value,
                    base,
                    include_stack,
                    source_material,
                    name.as_str(),
                    depth,
                );
                proof {
                    lemma_prefix_trans(source_material@, mid, old(source_material)@);
                }
                match result {
                    Ok(scenario) => {
                        out.push(NamedScenario { name: name.clone(), scenario });
                    },
                    Err(e) => {
                        return Err(e);
                    },
                }
                i = i + 1;
            }
            assert(names_of_children(out@) =~= scenario_names(*v));
            assert forall|a: int, b: int| 0 <= a < b < out@.len() implies (#[trigger] out@[a]).name@
                != (#[trigger] out@[b]).name@ by {
                assert(string_of(es@[a].key) != string_of(es@[b].key));
            }
            Ok(ScenarioMap { entries: out })
        },
        _ => {
            assert(names_of_children(out@) =~= scenario_names(*v));
            Ok(ScenarioMap { entries: out })
        },
    }
}

// ---------------------------------------------------------------------------
// Adapter choices.
/// Checks that a top-level adapter choice is one of those supported.
pub fn validate_default(kind: &str, implementation: &str, supported: &[&str]) -> (r: Result<
    (),
    ConfigError,
>)
    ensures
        r is Ok <==> is_supported(implementation@, views_of(supported@)),
        r matches Err(e) ==> e matches ConfigError::InvalidDefault { kind: k, reason } && k@ == kind@
            && reason@ == "unsupported implementation `"@ + implementation@ + "`"@,
{
    if crate::schema::supports(implementation, supported) {
        Ok(())
    } else {
        Err(
            ConfigError::InvalidDefault {
                kind: owned(kind),
                reason: quoted("unsupported implementation `", implementation, "`"),
            },
        )
    }
}

/// The verifier a test runs with: its own choice, or the default.
pub open spec fn test_verifier(t: Test, default_verifier: Seq<char>) -> Seq<char> {
    match t.verifier {
        Some(v) => v@,
        None => default_verifier,
    }
}

/// Whether a test's options suit the verifier it runs with.
pub open spec fn test_options_ok(t: Test, default_verifier: Seq<char>) -> bool {
    let v = test_verifier(t, default_verifier);
    if t.ansible is Some && v != "ansible"@ {
        false
    } else if v == "ansible"@ {
        t.pytest is None && t.ansible is Some && t.status == DummyStatus::Success
    } else if v == "dummy"@ {
        t.pytest is None
    } else if v == "pytest"@ {
        t.pytest is Some && t.status == DummyStatus::Success
    } else {
        false
    }
}

/// Checks a test's options against the verifier it runs with.
pub fn validate_test(test: &Test, default_verifier: &str) -> (r: Result<(), String>)
    ensures
        r is Ok <==> test_options_ok(*test, default_verifier@),
{
    let verifier: &str = match &test.verifier {
        Some(v) => v.as_str(),
        None => default_verifier,
    };
    proof {
        reveal_strlit("ansible");
        reveal_strlit("dummy");
        reveal_strlit("pytest");
    }
    let is_ansible = str_eq(verifier, "ansible");
    if test.ansible.is_some() && !is_ansible {
        return Err(owned("Ansible options require the ansible verifier"));
    }
    if is_ansible {
        if test.pytest.is_some() {
            return Err(owned("pytest options require the pytest verifier"));
        }
        if test.ansible.is_none() {
            return Err(owned("ansible verifier requires `ansible: {playbook: ...}`"));
        }
        if test.status != DummyStatus::Success {
            return Err(owned("dummy status controls cannot be used with ansible"));
        }
        return Ok(());
    }
    if str_eq(verifier, "dummy") {
        if test.pytest.is_some() {
            return Err(owned("pytest options require the pytest verifier"));
        }
        return Ok(());
    }
    if str_eq(verifier, "pytest") {
        if test.pytest.is_none() {
            return Err(owned("pytest verifier requires `pytest: {path: ...}`"));
        }
        if test.status != DummyStatus::Success {
            return Err(owned("dummy status controls cannot be used with pytest"));
        }
        return Ok(());
    }
    Err(quoted("unsupported implementation `", verifier, "`"))
}

/// Whether every scenario below has a usable name, and every test a usable
/// name and options.
pub open spec fn scenarios_valid(m: Seq<NamedScenario>, default_verifier: Seq<char>) -> bool
    decreases m,
{
    forall|i: int|
        0 <= i < m.len() ==> {
            &&& name_is_valid((#[trigger] m[i]).name@)
            &&& forall|j: int|
                0 <= j < m[i].scenario.tests.entries@.len() ==> name_is_valid(
                    (#[trigger] m[i].scenario.tests.entries@[j]).name@,
                ) && test_options_ok(m[i].scenario.tests.entries@[j].test, default_verifier)
            &&& scenarios_valid(m[i].scenario.scenarios.entries@, default_verifier)
        }
}

/// Checks the names and tests of a tree of scenarios.
pub fn validate_scenarios(
    scenarios: &ScenarioMap,
    parent: Option<&str>,
    default_verifier: &str,
) -> (r: Result<(), ConfigError>)
    ensures
        r is Ok <==> scenarios_valid(scenarios.entries@, default_verifier@),
        r matches Err(e) ==> late_error(e),
        r matches Err(e) ==> e is InvalidScenario || e is InvalidTest,
    decreases scenarios,
{
    let mut i: usize = 0;
    while i < scenarios.entries.len()
        invariant
            i <= scenarios.entries@.len(),
            forall|k: int|
                0 <= k < i ==> {
                    &&& name_is_valid((#[trigger] scenarios.entries@[k]).name@)
                    &&& forall|j: int|
                        0 <= j < scenarios.entries@[k].scenario.tests.entries@.len()
                            ==> name_is_valid(
                            (#[trigger] scenarios.entries@[k].scenario.tests.entries@[j]).name@,
                        ) && test_options_ok(
                            scenarios.entries@[k].scenario.tests.entries@[j].test,
                            default_verifier@,
                        )
                    &&& scenarios_valid(
                        scenarios.entries@[k].scenario.scenarios.entries@,
                        default_verifier@,
                    )
                },
        decreases scenarios.entries.len() - i,
    {
        let named = &scenarios.entries[i];
        let path = match parent {
            Some(p) => path_with_child(p, named.name.as_str()),
            None => named.name.clone(),
        };
        match validate_name(named.name.as_str()) {
            Ok(()) => {},
            Err(reason) => {
                return Err(ConfigError::InvalidScenario { path, reason });
            },
        }
        let tests = &named.scenario.tests.entries;
        let mut j: usize = 0;
        while j < tests.len()
            invariant
                i < scenarios.entries@.len(),
                *tests == scenarios.entries@[i as int].scenario.tests.entries,
                j <= tests@.len(),
                forall|m: int|
                    0 <= m < j ==> name_is_valid((#[trigger] tests@[m]).name@) && test_options_ok(
                        tests@[m].test,
                        default_verifier@,
                    ),
            decreases tests.len() - j,
        {
            let test_path = quoted(path.as_str(), "::", tests[j].name.as_str());
            match validate_name(tests[j].name.as_str()) {
                Ok(()) => {},
                Err(reason) => {
                    return Err(ConfigError::InvalidTest { path: test_path, reason });
                },
            }
            match validate_test(&tests[j].test, default_verifier) {
                Ok(()) => {},
                Err(reason) => {
                    return Err(ConfigError::InvalidTest { path: test_path, reason });
                },
            }
            j = j + 1;
        }
        proof {
            assert(decreases_to!(scenarios => scenarios.entries));
            assert(decreases_to!(scenarios => scenarios.entries@[i as int]));
            assert(decreases_to!(scenarios => scenarios.entries@[i as int].scenario));
            assert(decreases_to!(scenarios => scenarios.entries@[i as int].scenario.scenarios));
        }
        match validate_scenarios(&named.scenario.scenarios, Some(path.as_str()), default_verifier) {
            Ok(()) => {},
            Err(e) => {
                return Err(e);
            },
        }
        i = i + 1;
    }
    Ok(())
}


// ---------------------------------------------------------------------------
// The configuration.
/// Whether a loaded configuration is well formed: supported adapters, a
/// well-formed scenario tree with usable names and tests.
pub open spec fn config_ok(c: Config) -> bool {
    &&& is_supported(c.provisioner@, seq!["dummy"@, "ansible"@])
    &&& is_supported(c.converger@, seq!["dummy"@, "ansible"@])
    &&& is_supported(c.verifier@, seq!["dummy"@, "pytest"@, "ansible"@])
    &&& children_distinct(c.scenarios.entries@)
    &&& forall|i: int|
        0 <= i < c.scenarios.entries@.len() ==> scenario_ok(
            (#[trigger] c.scenarios.entries@[i]).scenario,
        )
    &&& scenarios_valid(c.scenarios.entries@, c.verifier@)
}

/// The string of a top-level field of the document.
pub open spec fn document_string(doc: Value, name: Seq<char>) -> Option<Seq<char>> {
    match field(doc, name) {
        Some(x) => string_of(x),
        None => None,
    }
}

/// The provisioner a document selects: its own choice, or `dummy`.
pub open spec fn chosen_provisioner(doc: Value) -> Seq<char> {
    match document_string(doc, "provisioner"@) {
        Some(p) => p,
        None => "dummy"@,
    }
}

/// The inventory sources a document lists.
pub open spec fn inventory_sources(doc: Value) -> Seq<Seq<char>> {
    match field(doc, "inventory"@) {
        Some(x) => strings_of(x),
        None => seq![],
    }
}

/// The scenario found by walking `segments` down from the scenarios `m`.
pub open spec fn scenario_at(m: Seq<NamedScenario>, segs: Seq<Seq<char>>) -> Option<Scenario>
    decreases segs.len(),
{
    if segs.len() == 0 || segs[0].len() == 0 {
        None
    } else {
        match child_named(m, segs[0]) {
            None => None,
            Some(s) => if segs.len() == 1 {
                Some(s)
            } else {
                scenario_at(s.scenarios.entries@, segs.drop_first())
            },
        }
    }
}

/// Why a document whose root is a sequence is not a configuration.
pub open spec fn sequence_root_reason() -> Seq<char> {
    "expected a mapping at the document root, but found a sequence; this may be an Ansible playbook, so select cvd.yaml or cvd.yml instead."@
}

/// Why a document whose root is neither a mapping nor a sequence is not a
/// configuration.
pub open spec fn other_root_reason() -> Seq<char> {
    "expected a mapping at the document root with `version`, `converger`, `verifier`, and `scenarios` keys"@
}

impl Config {
    /// Checks the adapter choices, then the scenario tree.
    pub fn validate(&self) -> (r: Result<(), ConfigError>)
        ensures
            r is Ok <==> {
                &&& is_supported(self.provisioner@, seq!["dummy"@, "ansible"@])
                &&& is_supported(self.converger@, seq!["dummy"@, "ansible"@])
                &&& is_supported(self.verifier@, seq!["dummy"@, "pytest"@, "ansible"@])
                &&& scenarios_valid(self.scenarios.entries@, self.verifier@)
            },
            r matches Err(e) ==> late_error(e),
            r matches Err(e) ==> e is InvalidDefault || e is InvalidScenario || e is InvalidTest,
            r matches Err(ConfigError::InvalidDefault { kind, .. }) ==> kind@ == "provisioner"@
                || kind@ == "converger"@ || kind@ == "verifier"@,
            r matches Err(e) && e is InvalidDefault ==> !(is_supported(
                self.provisioner@,
                seq!["dummy"@, "ansible"@],
            ) && is_supported(self.converger@, seq!["dummy"@, "ansible"@]) && is_supported(
                self.verifier@,
                seq!["dummy"@, "pytest"@, "ansible"@],
            )),
    {
        let two: [&str; 2] = ["dummy", "ansible"];
        let three: [&str; 3] = ["dummy", "pytest", "ansible"];
        assert(views_of(two@) =~= seq!["dummy"@, "ansible"@]);
        assert(views_of(three@) =~= seq!["dummy"@, "pytest"@, "ansible"@]);
        match validate_default("provisioner", self.provisioner.as_str(), &two) {
            Ok(()) => {},
            Err(e) => {
                return Err(e);
            },
        }
        match validate_default("converger", self.converger.as_str(), &two) {
            Ok(()) => {},
            Err(e) => {
                return Err(e);
            },
        }
        match validate_default("verifier", self.verifier.as_str(), &three) {
            Ok(()) => {},
            Err(e) => {
                return Err(e);
            },
        }
        validate_scenarios(&self.scenarios, None, self.verifier.as_str())
    }

    /// Loads a configuration from its parsed document.  `input` is the text
    /// it was parsed from and `configuration_path` the file it was read from:
    /// included scenarios, playbooks, pytest paths and inventory sources are
    /// found relative to that file's directory, through `source`.
    pub fn from_document<S: ConfigSource>(
        source: &S,
        document: &Value,
        input: &str,
        configuration_path: &str,
    ) -> (r: Result<Config, ConfigError>)
        ensures
            r matches Err(ConfigError::InvalidDocument(_)) <==> !(untagged(*document) is Mapping),
            untagged(*document) is Sequence ==> (r matches Err(ConfigError::InvalidDocument(m))
                && m@ == sequence_root_reason()),
            !(untagged(*document) is Mapping) && !(untagged(*document) is Sequence) ==> (r matches Err(
                ConfigError::InvalidDocument(m),
            ) && m@ == other_root_reason()),
            untagged(*document) is Mapping && !raw_config_ok(*document) ==> r matches Err(
                ConfigError::Parse(_),
            ),
            raw_config_ok(*document) ==> (r is Err && r->Err_0 is UnsupportedVersion
                <==> declared_version(*document) != CONFIG_VERSION),
            r matches Err(ConfigError::UnsupportedVersion(found)) ==> found == declared_version(
                *document,
            ),
            raw_config_ok(*document) && declared_version(*document) == CONFIG_VERSION
                && inventory_sources(*document).len() == 0 && entries_of(
                field(*document, "scenarios"@)->0,
            ).len() == 0 && is_supported(chosen_provisioner(*document), seq!["dummy"@, "ansible"@])
                && is_supported(
                document_string(*document, "converger"@)->0,
                seq!["dummy"@, "ansible"@],
            ) && is_supported(
                document_string(*document, "verifier"@)->0,
                seq!["dummy"@, "pytest"@, "ansible"@],
            ) ==> r is Ok,
            raw_config_ok(*document) && declared_version(*document) == CONFIG_VERSION
                && inventory_sources(*document).len() == 0 && named_self_contained(
                field(*document, "scenarios"@)->0,
            ) && is_supported(chosen_provisioner(*document), seq!["dummy"@, "ansible"@])
                && is_supported(
                document_string(*document, "converger"@)->0,
                seq!["dummy"@, "ansible"@],
            ) && is_supported(
                document_string(*document, "verifier"@)->0,
                seq!["dummy"@, "pytest"@, "ansible"@],
            ) ==> (r is Ok || (r matches Err(e) && (e is InvalidScenario || e is InvalidTest))),
            r matches Err(ConfigError::InvalidDefault { kind, reason }) ==> (kind@ == "inventory"@
                ==> exists|i: int|
                0 <= i < inventory_sources(*document).len() && has_prefix(
                    reason@,
                    crate::paths::joined(
                        crate::paths::parent_or_current(configuration_path@),
                        #[trigger] inventory_sources(*document)[i],
                    ) + ": cannot resolve: "@,
                )),
            r matches Ok(c) ==> {
                &&& config_ok(c)
                &&& raw_config_ok(*document)
                &&& declared_version(*document) == CONFIG_VERSION
                &&& c.provisioner@ == chosen_provisioner(*document)
                &&& Some(c.converger@) == document_string(*document, "converger"@)
                &&& Some(c.verifier@) == document_string(*document, "verifier"@)
                &&& c.inventory@.len() == inventory_sources(*document).len()
                &&& named_resolved_from(c.scenarios.entries@, field(*document, "scenarios"@)->0)
                &&& has_prefix(c.source_material@, input@)
            },
    {
        let es = match untag(document) {
            Value::Mapping(es) => es,
            Value::Sequence(_) => {
                return Err(
                    ConfigError::InvalidDocument(
                        owned(
                            "expected a mapping at the document root, but found a sequence; this may be an Ansible playbook, so select cvd.yaml or cvd.yml instead.",
                        ),
                    ),
                );
            },
            _ => {
                return Err(
                    ConfigError::InvalidDocument(
                        owned(
                            "expected a mapping at the document root with `version`, `converger`, `verifier`, and `scenarios` keys",
                        ),
                    ),
                );
            },
        };
        match check_raw_config(document) {
            Ok(()) => {},
            Err(e) => {
                return Err(e);
            },
        }
        assert(es@ == entries_of(*document));
        let version = read_version(get(es, "version").unwrap()).unwrap();
        if version != CONFIG_VERSION {
            return Err(ConfigError::UnsupportedVersion(version));
        }
        let base = parent_or_dot(configuration_path);
        let mut include_stack: Vec<String> = Vec::new();
        let mut source_material = owned(input);
        let scenarios = match resolve_named_scenarios(
            source,
            get(es, "scenarios").unwrap(),
            base.as_str(),
            &mut include_stack,
            &mut source_material,
            usize::MAX,
        ) {
            Ok(m) => m,
            Err(e) => {
                return Err(e);
            },
        };
        assert(names_of_children(scenarios.entries@).len() == scenarios.entries@.len());
        assert(scenario_names(field(*document, "scenarios"@)->0).len() == entries_of(
            field(*document, "scenarios"@)->0,
        ).len());
        let mut inventory: Vec<String> = Vec::new();
        match get(es, "inventory") {
            Some(x) => {
                let sources = read_string_list(x);
                assert(sources@.map_values(|a: String| a@).len() == sources@.len());
                assert(inventory_sources(*document).len() == sources@.len());
                let mut i: usize = 0;
                while i < sources.len()
                    invariant
                        raw_config_ok(*document),
                        declared_version(*document) == CONFIG_VERSION,
                        inventory_sources(*document).len() == sources@.len(),
                        inventory_sources(*document) == sources@.map_values(|a: String| a@),
                        base@ == crate::paths::parent_or_current(configuration_path@),
                        i <= sources@.len(),
                        inventory@.len() == i,
                    decreases sources.len() - i,
                {
                    let target = join(base.as_str(), sources[i].as_str());
                    match source.canonicalize(target.as_str()) {
                        Ok(c) => {
                            inventory.push(c);
                        },
                        Err(error) => {
                            let reason = quoted(target.as_str(), ": cannot resolve: ", error.as_str());
                            proof {
                                reveal_strlit("inventory");
                                assert(sources@.map_values(|a: String| a@)[i as int] == sources@[i as int]@);
                                let head = crate::paths::joined(
                                    crate::paths::parent_or_current(configuration_path@),
                                    inventory_sources(*document)[i as int],
                                ) + ": cannot resolve: "@;
                                assert(reason@ == head + error@);
                                assert(reason@.subrange(0, head.len() as int) =~= head);
                                assert(has_prefix(reason@, head));
                            }
                            return Err(
                                ConfigError::InvalidDefault {
                                    kind: owned("inventory"),
                                    reason,
                                },
                            );
                        },
                    }
                    i = i + 1;
                }
                assert(sources@.map_values(|a: String| a@).len() == sources@.len());
            },
            None => {},
        }
        let provisioner = match get(es, "provisioner") {
            Some(x) => match read_string(x) {
                Some(p) => p.clone(),
                None => owned("dummy"),
            },
            None => owned("dummy"),
        };
        proof {
            reveal_strlit("dummy");
        }
        let converger = read_string(get(es, "converger").unwrap()).unwrap().clone();
        let verifier = read_string(get(es, "verifier").unwrap()).unwrap().clone();
        let config = Config {
            inventory,
            provisioner,
            converger,
            verifier,
            scenarios,
            source_material,
        };
        proof {
            reveal_strlit("inventory");
            reveal_strlit("provisioner");
            reveal_strlit("converger");
            reveal_strlit("verifier");
            assert("provisioner"@ != "inventory"@) by {
                assert("provisioner"@.len() != "inventory"@.len());
            }
            assert("converger"@ != "inventory"@) by {
                assert("converger"@[0] != "inventory"@[0]);
            }
            assert("verifier"@ != "inventory"@) by {
                assert("verifier"@.len() != "inventory"@.len());
            }
        }
        match config.validate() {
            Ok(()) => Ok(config),
            Err(e) => Err(e),
        }
    }

    /// Loads a configuration from its text (see [`Config::from_document`]).
    /// What holds of the result holds whatever `source` does.
    pub fn from_yaml_at<S: ConfigSource>(source: &S, input: &str, configuration_path: &str) -> (r:
        Result<Config, ConfigError>)
        ensures
            r matches Ok(c) ==> config_ok(c) && has_prefix(c.source_material@, input@),
    {
        match source.parse_yaml(input) {
            Ok(document) => Config::from_document(source, &document, input, configuration_path),
            Err(reason) => Err(ConfigError::Parse(reason)),
        }
    }

    /// The configuration format version this library reads.
    pub fn version(&self) -> (r: u32)
        ensures
            r == 1,
    {
        1
    }

    /// The paths of all scenarios, each followed by those below it, in
    /// declaration order.
    pub fn scenario_paths(&self) -> (r: Vec<String>)
        ensures
            string_views(r@) == paths_from(self.scenarios, None, 0),
    {
        let mut r: Vec<String> = Vec::new();
        collect_paths(&self.scenarios, None, &mut r);
        assert(string_views(Seq::<String>::empty()) =~= Seq::<Seq<char>>::empty());
        assert(seq![] + paths_from(self.scenarios, None, 0) =~= paths_from(self.scenarios, None, 0));
        r
    }

    /// Loads a configuration whose relative references resolve against the
    /// current directory.
    pub fn from_yaml<S: ConfigSource>(source: &S, input: &str) -> (r: Result<Config, ConfigError>)
        ensures
            r matches Ok(c) ==> config_ok(c) && has_prefix(c.source_material@, input@),
    {
        Config::from_yaml_at(source, input, "cvd.yml")
    }

    /// The text of the configuration and of every included scenario file.
    pub fn source_material(&self) -> (r: &str)
        ensures
            r@ == self.source_material@,
    {
        self.source_material.as_str()
    }

    /// The scenario at a `/`-separated path.
    pub fn scenario(&self, path: &str) -> (r: Option<&Scenario>)
        ensures
            match scenario_at(self.scenarios.entries@, segments(path@)) {
                Some(s) => r == Some(&s),
                None => r is None,
            },
    {
        let segs = split_segments(path);
        let ghost views = segs@.map_values(|x: String| x@);
        assert(views.len() >= 1);
        let mut current: &ScenarioMap = &self.scenarios;
        let mut k: usize = 0;
        assert(views.skip(0) =~= views);
        while k < segs.len()
            invariant
                views == segs@.map_values(|x: String| x@),
                views == segments(path@),
                k < segs@.len(),
                scenario_at(self.scenarios.entries@, views) == scenario_at(
                    current.entries@,
                    views.skip(k as int),
                ),
            decreases segs.len() - k,
        {
            let segment = segs[k].as_str();
            assert(views.skip(k as int)[0] == segment@);
            if segment.unicode_len() == 0 {
                return None;
            }
            match current.get(segment) {
                None => {
                    return None;
                },
                Some(s) => {
                    if k + 1 == segs.len() {
                        return Some(s);
                    }
                    assert(views.skip(k as int).drop_first() =~= views.skip(k + 1));
                    current = &s.scenarios;
                },
            }
            k = k + 1;
        }
        None
    }
}

impl PhaseDefinition {
    /// Whether the phase value names the dummy adapter explicitly.
    pub fn is_dummy_override(&self) -> (r: bool)
        ensures
            r == self.dummy_override,
    {
        self.dummy_override
    }

    /// What a dummy adapter running this phase is told to produce.
    pub fn dummy_status(&self) -> (r: DummyStatus)
        ensures
            r == self.status,
    {
        self.status
    }

    /// The Ansible playbook and variables of an Ansible adapter mapping.
    pub fn ansible(&self) -> (r: Option<(&String, &Value)>)
        ensures
            r is Some <==> (self.playbook is Some && self.vars is Some),
            r matches Some(p) ==> Some(*p.0) == self.playbook && Some(*p.1) == self.vars,
    {
        match (&self.playbook, &self.vars) {
            (Some(p), Some(v)) => Some((p, v)),
            _ => None,
        }
    }
}

} // verus!

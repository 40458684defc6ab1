//! The schema rules of a CVD configuration, stated over the document model.
use vstd::prelude::*;

use crate::text::{contains_char, str_eq};
use crate::value::{get, is_key, key_is, keys_within, lookup, untag, untagged, views_of, Entry, Value};

verus! {

/// A phase that a scenario can declare.
#[derive(Clone, Copy, Debug, PartialEq, Eq, Structural)]
pub enum ConfiguredPhase {
    Create,
    Prepare,
    Converge,
    Idempotence,
    Verify,
    Cleanup,
    Destroy,
}

/// The result a dummy adapter is told to produce.
#[derive(Clone, Copy, Debug, PartialEq, Eq, Structural)]
pub enum DummyStatus {
    Success,
    Error,
    Fail,
}

/// The configuration key of a phase.
pub open spec fn phase_key(phase: ConfiguredPhase) -> Seq<char> {
    match phase {
        ConfiguredPhase::Create => "create"@,
        ConfiguredPhase::Prepare => "prepare"@,
        ConfiguredPhase::Converge => "converge"@,
        ConfiguredPhase::Idempotence => "idempotence"@,
        ConfiguredPhase::Verify => "verify"@,
        ConfiguredPhase::Cleanup => "cleanup"@,
        ConfiguredPhase::Destroy => "destroy"@,
    }
}

/// The configuration key of a phase.
pub fn configured_phase_name(phase: ConfiguredPhase) -> (name: &'static str)
    ensures
        name@ == phase_key(phase),
{
    proof {
        reveal_strlit("create");
        reveal_strlit("prepare");
        reveal_strlit("converge");
        reveal_strlit("idempotence");
        reveal_strlit("verify");
        reveal_strlit("cleanup");
        reveal_strlit("destroy");
    }
    match phase {
        ConfiguredPhase::Create => "create",
        ConfiguredPhase::Prepare => "prepare",
        ConfiguredPhase::Converge => "converge",
        ConfiguredPhase::Idempotence => "idempotence",
        ConfiguredPhase::Verify => "verify",
        ConfiguredPhase::Cleanup => "cleanup",
        ConfiguredPhase::Destroy => "destroy",
    }
}

/// Whether a scenario or test name can stand in a `/`-separated path.
pub open spec fn name_is_valid(name: Seq<char>) -> bool {
    name.len() > 0 && name != "."@ && name != ".."@ && !name.contains('/')
}

/// Checks a scenario or test name.
pub fn validate_name(name: &str) -> (r: Result<(), String>)
    ensures
        r is Ok <==> name_is_valid(name@),
{
    if name.unicode_len() == 0 {
        return Err(crate::text::owned("name must not be empty"));
    }
    if str_eq(name, ".") || str_eq(name, "..") {
        return Err(crate::text::owned("name must not be `.` or `..`"));
    }
    if contains_char(name, '/') {
        return Err(
            crate::text::owned("name must not contain `/` because paths use `/` as a separator"),
        );
    }
    Ok(())
}

/// Whether `name` is one of `supported`.
pub open spec fn is_supported(name: Seq<char>, supported: Seq<Seq<char>>) -> bool {
    exists|i: int| 0 <= i < supported.len() && supported[i] == name
}

/// Whether an adapter implementation is one of those supported.
pub fn supports(implementation: &str, supported: &[&str]) -> (r: bool)
    ensures
        r == is_supported(implementation@, views_of(supported@)),
{
    let ghost names = views_of(supported@);
    let mut i: usize = 0;
    while i < supported.len()
        invariant
            i <= supported@.len(),
            names == views_of(supported@),
            forall|j: int| 0 <= j < i ==> names[j] != implementation@,
        decreases supported.len() - i,
    {
        if str_eq(implementation, supported[i]) {
            assert(names[i as int] == implementation@);
            return true;
        }
        i = i + 1;
    }
    false
}

/// The string under any tags of `v`.
pub open spec fn string_of(v: Value) -> Option<Seq<char>> {
    match untagged(v) {
        Value::String(s) => Some(s@),
        _ => None,
    }
}

/// A dummy status named by `v`.
pub open spec fn status_named(v: Value) -> Option<DummyStatus> {
    match v {
        Value::String(s) => if s@ == "ok"@ {
            Some(DummyStatus::Success)
        } else if s@ == "error"@ {
            Some(DummyStatus::Error)
        } else if s@ == "fail"@ {
            Some(DummyStatus::Fail)
        } else {
            None
        },
        _ => None,
    }
}

pub open spec fn status_fields() -> Seq<Seq<char>> {
    seq!["status"@]
}

/// The status set by dummy adapter options, or none when they are malformed.
pub open spec fn dummy_options(v: Value) -> Option<DummyStatus> {
    match untagged(v) {
        Value::Null => Some(DummyStatus::Success),
        Value::Mapping(es) => if keys_within(es@, status_fields()) {
            match lookup(es@, "status"@) {
                None => Some(DummyStatus::Success),
                Some(s) => status_named(s),
            }
        } else {
            None
        },
        _ => None,
    }
}

/// Whether `v` can be read as a JSON value: no tags, and only string keys.
pub open spec fn json_like(v: Value) -> bool
    decreases v,
{
    match v {
        Value::Tagged(_, _) => false,
        Value::Sequence(items) => forall|i: int|
            0 <= i < items.len() ==> json_like(#[trigger] items[i]),
        Value::Mapping(es) => forall|i: int|
            0 <= i < es.len() ==> string_of((#[trigger] es[i]).key) is Some && json_like(
                es[i].value,
            ),
        _ => true,
    }
}

pub open spec fn ansible_fields() -> Seq<Seq<char>> {
    seq!["playbook"@, "vars"@]
}

/// Whether `v` holds Ansible adapter options: a `playbook` path and optional
/// JSON `vars`, nothing else.
pub open spec fn ansible_options_valid(v: Value) -> bool {
    match untagged(v) {
        Value::Mapping(es) => {
            &&& keys_within(es@, ansible_fields())
            &&& lookup(es@, "playbook"@) matches Some(p) && string_of(p) is Some
            &&& lookup(es@, "vars"@) matches Some(x) ==> json_like(x)
        },
        _ => false,
    }
}

/// The phases an Ansible adapter can run.
pub open spec fn ansible_runs(phase: ConfiguredPhase) -> bool {
    phase == ConfiguredPhase::Create || phase == ConfiguredPhase::Destroy || phase
        == ConfiguredPhase::Prepare || phase == ConfiguredPhase::Converge || phase
        == ConfiguredPhase::Cleanup
}

/// Whether a mapping names exactly one adapter, with options that adapter
/// accepts for the phase.
pub open spec fn adapter_mapping_valid(es: Seq<Entry>, phase: ConfiguredPhase) -> bool {
    es.len() == 1 && match es[0].key {
        Value::String(name) => if name@ == "dummy"@ {
            dummy_options(es[0].value) matches Some(s) && s != DummyStatus::Fail
        } else if name@ == "ansible"@ {
            ansible_runs(phase) && ansible_options_valid(es[0].value)
        } else {
            false
        },
        _ => false,
    }
}

pub open spec fn is_string(v: Value) -> bool {
    v is String
}

pub open spec fn is_mapping(v: Value) -> bool {
    v is Mapping
}

/// Whether a phase value is accepted: a scalar, one adapter mapping, or a
/// list of only scalars or only non-Ansible adapter mappings.
pub open spec fn phase_value_valid(v: Value, phase: ConfiguredPhase) -> bool {
    match v {
        Value::Null | Value::Bool(_) | Value::Number(_) | Value::String(_) => true,
        Value::Mapping(es) => adapter_mapping_valid(es@, phase),
        Value::Sequence(items) => {
            let strings = forall|i: int| 0 <= i < items.len() ==> is_string(#[trigger] items@[i]);
            let mappings = forall|i: int| 0 <= i < items.len() ==> is_mapping(#[trigger] items@[i]);
            (strings || mappings) && (mappings ==> forall|i: int|
                0 <= i < items.len() ==> (#[trigger] items@[i] matches Value::Mapping(es)
                    && lookup(es@, "ansible"@) is None && adapter_mapping_valid(es@, phase)))
        },
        Value::Tagged(_, _) => false,
    }
}

/// The status named by a dummy status value.
pub fn read_status(v: &Value) -> (r: Option<DummyStatus>)
    ensures
        r == status_named(*v),
{
    match v {
        Value::String(s) => {
            if str_eq(s.as_str(), "ok") {
                Some(DummyStatus::Success)
            } else if str_eq(s.as_str(), "error") {
                Some(DummyStatus::Error)
            } else if str_eq(s.as_str(), "fail") {
                Some(DummyStatus::Fail)
            } else {
                None
            }
        },
        _ => None,
    }
}

/// Reads dummy adapter options.
pub fn parse_dummy_options(v: &Value) -> (r: Result<DummyStatus, String>)
    ensures
        match dummy_options(*v) {
            Some(s) => r == Ok::<DummyStatus, String>(s),
            None => r is Err,
        },
{
    match untag(v) {
        Value::Null => Ok(DummyStatus::Success),
        Value::Mapping(es) => {
            let names: [&str; 1] = ["status"];
            assert(views_of(names@) =~= status_fields()) by {
                reveal_strlit("status");
            }
            if crate::value::first_unknown_key(es, &names).is_some() {
                return Err(crate::text::owned("invalid dummy options: unknown field"));
            }
            match get(es, "status") {
                None => Ok(DummyStatus::Success),
                Some(s) => match read_status(s) {
                    Some(status) => Ok(status),
                    None => Err(
                        crate::text::owned(
                            "invalid dummy options: status must be `ok`, `error` or `fail`",
                        ),
                    ),
                },
            }
        },
        _ => Err(crate::text::owned("invalid dummy options: expected a mapping")),
    }
}

/// The string under any tags of `v`.
pub fn read_string(v: &Value) -> (r: Option<&String>)
    ensures
        r matches Some(s) ==> string_of(*v) == Some(s@),
        r is None ==> string_of(*v) is None,
{
    match untag(v) {
        Value::String(s) => Some(s),
        _ => None,
    }
}

/// Whether `v` can be read as a JSON value.
pub fn is_json_like(v: &Value) -> (r: bool)
    ensures
        r == json_like(*v),
    decreases v,
{
    match v {
        Value::Tagged(_, _) => false,
        Value::Sequence(items) => {
            let mut i: usize = 0;
            while i < items.len()
                invariant
                    *v == Value::Sequence(*items),
                    i <= items@.len(),
                    forall|j: int| 0 <= j < i ==> json_like(#[trigger] items[j]),
                decreases items.len() - i,
            {
                proof {
                    assert(decreases_to!(v => v->Sequence_0));
                    assert(decreases_to!(v => items[i as int]));
                }
                if !is_json_like(&items[i]) {
                    return false;
                }
                i = i + 1;
            }
            true
        },
        Value::Mapping(es) => {
            let mut i: usize = 0;
            while i < es.len()
                invariant
                    *v == Value::Mapping(*es),
                    i <= es@.len(),
                    forall|j: int|
                        0 <= j < i ==> string_of((#[trigger] es[j]).key) is Some && json_like(
                            es[j].value,
                        ),
                decreases es.len() - i,
            {
                proof {
                    assert(decreases_to!(v => v->Mapping_0));
                    assert(decreases_to!(v => es[i as int]));
                    assert(decreases_to!(v => es[i as int].value));
                }
                if read_string(&es[i].key).is_none() || !is_json_like(&es[i].value) {
                    return false;
                }
                i = i + 1;
            }
            true
        },
        _ => true,
    }
}

/// Checks Ansible adapter options.
pub fn check_ansible_options(v: &Value) -> (r: Result<(), String>)
    ensures
        r is Ok <==> ansible_options_valid(*v),
{
    match untag(v) {
        Value::Mapping(es) => {
            let names: [&str; 2] = ["playbook", "vars"];
            assert(views_of(names@) =~= ansible_fields()) by {
                reveal_strlit("playbook");
                reveal_strlit("vars");
            }
            if crate::value::first_unknown_key(es, &names).is_some() {
                return Err(crate::text::owned("invalid Ansible options: unknown field"));
            }
            match get(es, "playbook") {
                Some(p) => if read_string(p).is_none() {
                    return Err(
                        crate::text::owned("invalid Ansible options: playbook must be a path"),
                    );
                },
                None => {
                    return Err(crate::text::owned("invalid Ansible options: missing `playbook`"));
                },
            }
            match get(es, "vars") {
                Some(x) => if !is_json_like(x) {
                    return Err(
                        crate::text::owned("invalid Ansible options: vars must be JSON data"),
                    );
                },
                None => {},
            }
            Ok(())
        },
        _ => Err(crate::text::owned("invalid Ansible options: expected a mapping")),
    }
}

fn ansible_runs_exec(phase: ConfiguredPhase) -> (r: bool)
    ensures
        r == ansible_runs(phase),
{
    match phase {
        ConfiguredPhase::Create | ConfiguredPhase::Destroy | ConfiguredPhase::Prepare
        | ConfiguredPhase::Converge | ConfiguredPhase::Cleanup => true,
        _ => false,
    }
}

/// Checks a mapping that names one adapter.
pub fn validate_action_mapping(es: &Vec<Entry>, phase: ConfiguredPhase) -> (r: Result<(), String>)
    ensures
        r is Ok <==> adapter_mapping_valid(es@, phase),
{
    if es.len() != 1 {
        return Err(
            crate::text::owned("an adapter mapping must contain exactly one adapter name"),
        );
    }
    let adapter = match &es[0].key {
        Value::String(s) => s,
        _ => {
            return Err(crate::text::owned("an adapter name must be a string"));
        },
    };
    let options = &es[0].value;
    if str_eq(adapter.as_str(), "dummy") {
        match parse_dummy_options(options) {
            Ok(DummyStatus::Fail) => Err(
                crate::text::owned("dummy phase status must be `ok` or `error`"),
            ),
            Ok(_) => Ok(()),
            Err(reason) => Err(reason),
        }
    } else if str_eq(adapter.as_str(), "ansible") {
        if ansible_runs_exec(phase) {
            check_ansible_options(options)
        } else {
            Err(
                crate::text::owned(
                    "Ansible is supported only for create, prepare, converge, cleanup, and destroy",
                ),
            )
        }
    } else {
        Err(crate::text::concat("unsupported implementation ", adapter.as_str()))
    }
}

/// Checks a phase value.
pub fn validate_phase_value(v: &Value, phase: ConfiguredPhase) -> (r: Result<(), String>)
    ensures
        r is Ok <==> phase_value_valid(*v, phase),
{
    match v {
        Value::Null | Value::Bool(_) | Value::Number(_) | Value::String(_) => Ok(()),
        Value::Mapping(es) => validate_action_mapping(es, phase),
        Value::Sequence(items) => {
            let mut strings = true;
            let mut mappings = true;
            let mut i: usize = 0;
            while i < items.len()
                invariant
                    i <= items@.len(),
                    strings == forall|j: int| 0 <= j < i ==> is_string(#[trigger] items@[j]),
                    mappings == forall|j: int| 0 <= j < i ==> is_mapping(#[trigger] items@[j]),
                decreases items.len() - i,
            {
                match &items[i] {
                    Value::String(_) => {
                        mappings = false;
                    },
                    Value::Mapping(_) => {
                        strings = false;
                    },
                    _ => {
                        strings = false;
                        mappings = false;
                    },
                }
                i = i + 1;
            }
            if !strings && !mappings {
                return Err(
                    crate::text::owned(
                        "a list must contain only scalar values or only adapter mappings",
                    ),
                );
            }
            if mappings {
                let mut k: usize = 0;
                while k < items.len()
                    invariant
                        *v == Value::Sequence(*items),
                        k <= items@.len(),
                        forall|j: int| 0 <= j < items.len() ==> is_mapping(#[trigger] items@[j]),
                        forall|j: int|
                            0 <= j < k ==> (#[trigger] items@[j] matches Value::Mapping(es)
                                && lookup(es@, "ansible"@) is None && adapter_mapping_valid(
                                es@,
                                phase,
                            )),
                    decreases items.len() - k,
                {
                    assert(is_mapping(items@[k as int]));
                    if let Value::Mapping(es) = &items[k] {
                        assert(items@[k as int] == Value::Mapping(*es));
                        if get(es, "ansible").is_some() {
                            return Err(
                                crate::text::owned(
                                    "Ansible phases require one adapter mapping, not a list",
                                ),
                            );
                        }
                        match validate_action_mapping(es, phase) {
                            Ok(()) => {},
                            Err(reason) => {
                                return Err(reason);
                            },
                        }
                    }
                    k = k + 1;
                }
            }
            Ok(())
        },
        Value::Tagged(_, _) => Err(crate::text::owned("tagged YAML values are not supported")),
    }
}

} // verus!

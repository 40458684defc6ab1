//! Ansible runtime inventory: host bindings that resources report, and the
//! inventory source list handed to Ansible.  Ansible interprets the configured
//! sources; only explicit bindings of visible, existing resources are
//! projected.
use vstd::prelude::*;

use crate::state::{visible, Attribute, Resource, RunState};
use crate::text::{owned, str_eq};
use crate::value::{get, is_key, key_in, key_is, keys_within, lookup, same_value, views_of, Entry, Value};

verus! {

/// The value of the first attribute named `name`.
pub open spec fn attribute(attrs: Seq<Attribute>, name: Seq<char>) -> Option<Value>
    decreases attrs.len(),
{
    if attrs.len() == 0 {
        None
    } else if attrs[0].name@ == name {
        Some(attrs[0].value)
    } else {
        attribute(attrs.drop_first(), name)
    }
}

/// The value of the first attribute named `name`.
pub fn get_attribute<'a>(attrs: &'a Vec<Attribute>, name: &str) -> (r: Option<&'a Value>)
    ensures
        r matches Some(v) ==> attribute(attrs@, name@) == Some(*v),
        r is None ==> attribute(attrs@, name@) is None,
{
    let mut i: usize = 0;
    assert(attrs@.skip(0) =~= attrs@);
    while i < attrs.len()
        invariant
            i <= attrs@.len(),
            attribute(attrs@, name@) == attribute(attrs@.skip(i as int), name@),
        decreases attrs.len() - i,
    {
        assert(attrs@.skip(i as int).drop_first() =~= attrs@.skip(i + 1));
        if str_eq(attrs[i].name.as_str(), name) {
            return Some(&attrs[i].value);
        }
        i = i + 1;
    }
    None
}

/// Whether `c` is white space (Unicode `White_Space`).
pub open spec fn is_white(c: char) -> bool {
    let n = c as u32;
    (9 <= n <= 13) || n == 32 || n == 0x85 || n == 0xA0 || n == 0x1680 || (0x2000 <= n <= 0x200A)
        || n == 0x2028 || n == 0x2029 || n == 0x202F || n == 0x205F || n == 0x3000
}

/// Whether `s` holds only white space.
pub open spec fn blank(s: Seq<char>) -> bool {
    forall|i: int| 0 <= i < s.len() ==> is_white(#[trigger] s[i])
}

/// Whether `s` holds only white space.
pub fn is_blank(s: &str) -> (r: bool)
    ensures
        r == blank(s@),
{
    let n = s.unicode_len();
    let mut i: usize = 0;
    while i < n
        invariant
            n == s@.len(),
            i <= n,
            forall|j: int| 0 <= j < i ==> is_white(#[trigger] s@[j]),
        decreases n - i,
    {
        let c = s.get_char(i) as u32;
        let white = (9 <= c && c <= 13) || c == 32 || c == 0x85 || c == 0xA0 || c == 0x1680 || (0x2000
            <= c && c <= 0x200A) || c == 0x2028 || c == 0x2029 || c == 0x202F || c == 0x205F || c
            == 0x3000;
        if !white {
            return false;
        }
        i = i + 1;
    }
    true
}

pub open spec fn binding_fields() -> Seq<Seq<char>> {
    seq!["inventory_hostname"@, "vars"@]
}

/// What a resource's host binding says: no binding, a malformed one, or the
/// host name it binds.
pub enum Binding {
    Unbound,
    Malformed,
    Host(Seq<char>),
}

/// The host binding a resource reports in its `ansible` attribute.
pub open spec fn binding_of(r: Resource) -> Binding {
    match attribute(r.attributes@, "ansible"@) {
        None => Binding::Unbound,
        Some(Value::Mapping(es)) => {
            if !keys_within(es@, binding_fields()) {
                Binding::Malformed
            } else {
                match lookup(es@, "inventory_hostname"@) {
                    Some(Value::String(name)) => if blank(name@) {
                        Binding::Malformed
                    } else if lookup(es@, "vars"@) matches Some(x) && !(x is Mapping) {
                        Binding::Malformed
                    } else {
                        Binding::Host(name@)
                    },
                    _ => Binding::Malformed,
                }
            }
        },
        Some(_) => Binding::Malformed,
    }
}

/// The hosts bound by `rs`, in order; none when a binding is malformed or
/// two resources bind the same host.
pub open spec fn host_names(rs: Seq<Resource>) -> Option<Seq<Seq<char>>>
    decreases rs.len(),
{
    if rs.len() == 0 {
        Some(seq![])
    } else {
        match host_names(rs.drop_last()) {
            None => None,
            Some(names) => match binding_of(rs.last()) {
                Binding::Unbound => Some(names),
                Binding::Malformed => None,
                Binding::Host(name) => if names.contains(name) {
                    None
                } else {
                    Some(names.push(name))
                },
            },
        }
    }
}

/// One host of a runtime inventory view, with its variables.
pub struct HostBinding {
    pub name: String,
    pub vars: Value,
}

pub open spec fn names_of(hosts: Seq<HostBinding>) -> Seq<Seq<char>> {
    Seq::new(hosts.len(), |i: int| hosts[i].name@)
}

/// The `vars` a resource's host binding gives, if any.
pub open spec fn binding_vars(r: Resource) -> Option<Value> {
    match attribute(r.attributes@, "ansible"@) {
        Some(Value::Mapping(es)) => lookup(es@, "vars"@),
        _ => None,
    }
}

/// Whether a host carries the variables its resource's binding gives: the
/// binding's `vars`, or none when it gives none.
pub open spec fn vars_from(h: HostBinding, r: Resource) -> bool {
    match binding_vars(r) {
        Some(x) => same_value(h.vars, x),
        None => h.vars matches Value::Mapping(es) && es@.len() == 0,
    }
}

/// The resources of `rs` that bind a host, in order.
pub open spec fn bound_resources(rs: Seq<Resource>) -> Seq<Resource>
    decreases rs.len(),
{
    if rs.len() == 0 {
        seq![]
    } else {
        bound_resources(rs.drop_last()) + if binding_of(rs.last()) is Host {
            seq![rs.last()]
        } else {
            seq![]
        }
    }
}

/// Reads the host binding of one resource.
fn read_binding(r: &Resource) -> (out: Result<Option<HostBinding>, String>)
    ensures
        binding_of(*r) is Unbound <==> out == Ok::<Option<HostBinding>, String>(None),
        binding_of(*r) is Malformed <==> out is Err,
        binding_of(*r) matches Binding::Host(name) ==> out matches Ok(Some(h)) && h.name@ == name
            && h.vars is Mapping && vars_from(h, *r),
{
    let binding = match get_attribute(&r.attributes, "ansible") {
        None => {
            return Ok(None);
        },
        Some(b) => b,
    };
    let es = match binding {
        Value::Mapping(es) => es,
        _ => {
            return Err(owned("resource attributes.ansible must be a mapping"));
        },
    };
    let names: [&str; 2] = ["inventory_hostname", "vars"];
    assert(views_of(names@) =~= binding_fields()) by {
        reveal_strlit("inventory_hostname");
        reveal_strlit("vars");
    }
    if crate::value::first_unknown_key(es, &names).is_some() {
        return Err(owned("unknown field in resource attributes.ansible"));
    }
    let name = match get(es, "inventory_hostname") {
        Some(Value::String(name)) => name,
        _ => {
            return Err(
                owned("resource attributes.ansible.inventory_hostname must be a nonempty string"),
            );
        },
    };
    if is_blank(name.as_str()) {
        return Err(
            owned("resource attributes.ansible.inventory_hostname must be a nonempty string"),
        );
    }
    let vars = match get(es, "vars") {
        Some(x) => match x {
            Value::Mapping(_) => crate::value::copy_value(x),
            _ => {
                let mut message = owned("host `");
                message.append(name.as_str());
                message.append("` vars must be a mapping");
                return Err(message);
            },
        },
        None => Value::Mapping(Vec::new()),
    };
    Ok(Some(HostBinding { name: name.clone(), vars }))
}

/// The hosts the scenario at `path` binds through its visible resources:
/// existing resources of its entered ancestors and of itself, ancestors
/// first, each in its own order.  A malformed binding, or two visible
/// resources binding one host, is an error.
pub fn hosts(state: &RunState, path: &str) -> (r: Result<Vec<HostBinding>, String>)
    requires
        state.wf(),
    ensures
        r is Ok <==> host_names(visible(*state, path@)) is Some,
        r matches Ok(h) ==> Some(names_of(h@)) == host_names(visible(*state, path@)) && forall|
            i: int,
        | 0 <= i < h@.len() ==> (#[trigger] h@[i]).vars is Mapping,
        r matches Ok(h) ==> h@.len() == bound_resources(visible(*state, path@)).len() && forall|
            i: int,
        | 0 <= i < h@.len() ==> vars_from(#[trigger] h@[i], bound_resources(visible(*state, path@))[i]),
{
    let resources = state.visible_resources(path);
    let ghost rs = resources@.map_values(|x: &Resource| *x);
    let mut out: Vec<HostBinding> = Vec::new();
    let mut i: usize = 0;
    while i < resources.len()
        invariant
            rs == resources@.map_values(|x: &Resource| *x),
            rs == visible(*state, path@),
            i <= rs.len(),
            host_names(rs.take(i as int)) == Some(names_of(out@)),
            forall|j: int| 0 <= j < out@.len() ==> (#[trigger] out@[j]).vars is Mapping,
            out@.len() == bound_resources(rs.take(i as int)).len(),
            forall|j: int| 0 <= j < out@.len() ==> vars_from(#[trigger] out@[j], bound_resources(rs.take(i as int))[j]),
        decreases resources.len() - i,
    {
        assert(rs.take(i + 1).drop_last() =~= rs.take(i as int));
        assert(rs.take(i + 1).last() == rs[i as int]);
        assert(*resources@[i as int] == rs[i as int]);
        let ghost bound_before = bound_resources(rs.take(i as int));
        assert(bound_resources(rs.take(i + 1)) == bound_before + if binding_of(rs[i as int]) is Host {
            seq![rs[i as int]]
        } else {
            seq![]
        });
        match read_binding(resources[i]) {
            Err(reason) => {
                proof {
                    lemma_host_names_prefix(rs, i + 1, rs.len() as int);
                    assert(rs.take(rs.len() as int) =~= rs);
                }
                return Err(reason);
            },
            Ok(None) => {
                assert(bound_resources(rs.take(i + 1)) =~= bound_before);
            },
            Ok(Some(host)) => {
                let mut j: usize = 0;
                while j < out.len()
                    invariant
                        rs == resources@.map_values(|x: &Resource| *x),
                        rs == visible(*state, path@),
                        i < rs.len(),
                        host_names(rs.take(i as int)) == Some(names_of(out@)),
                        binding_of(rs[i as int]) == Binding::Host(host.name@),
                        rs.take(i + 1).drop_last() == rs.take(i as int),
                        rs.take(i + 1).last() == rs[i as int],
                        j <= out@.len(),
                        forall|m: int| 0 <= m < j ==> (#[trigger] out@[m]).name@ != host.name@,
                    decreases out.len() - j,
                {
                    if str_eq(out[j].name.as_str(), host.name.as_str()) {
                        proof {
                            assert(names_of(out@)[j as int] == host.name@);
                            assert(names_of(out@).contains(host.name@));
                            assert(host_names(rs.take(i + 1)) is None);
                            lemma_host_names_prefix(rs, i + 1, rs.len() as int);
                            assert(rs.take(rs.len() as int) =~= rs);
                        }
                        let mut message = owned("multiple visible resources bind inventory host `");
                        message.append(host.name.as_str());
                        message.append("`");
                        return Err(message);
                    }
                    j = j + 1;
                }
                let ghost before = names_of(out@);
                assert(!before.contains(host.name@)) by {
                    if before.contains(host.name@) {
                        let m = choose|m: int| 0 <= m < before.len() && before[m] == host.name@;
                        assert(out@[m].name@ == host.name@);
                    }
                }
                let ghost old_out = out@;
                out.push(host);
                assert(names_of(out@) =~= before.push(out@[out@.len() - 1].name@));
                assert(bound_resources(rs.take(i + 1)) =~= bound_before.push(rs[i as int]));
                assert forall|j: int| 0 <= j < out@.len() implies vars_from(#[trigger] out@[j], bound_resources(rs.take(i + 1))[j]) by {
                    if j < old_out.len() {
                        assert(out@[j] == old_out[j]);
                    }
                }
            },
        }
        i = i + 1;
    }
    assert(rs.take(rs.len() as int) =~= rs);
    Ok(out)
}

/// Once the hosts of a prefix are refused, so are those of any longer prefix.
proof fn lemma_host_names_prefix(rs: Seq<Resource>, i: int, n: int)
    requires
        0 <= i <= n <= rs.len(),
        host_names(rs.take(i)) is None,
    ensures
        host_names(rs.take(n)) is None,
    decreases n - i,
{
    if i < n {
        assert(rs.take(i + 1).drop_last() =~= rs.take(i));
        lemma_host_names_prefix(rs, i + 1, n);
    }
}

/// A string value.
pub fn string_value(s: &str) -> (r: Value)
    ensures
        r matches Value::String(t) && t@ == s@,
{
    Value::String(owned(s))
}

/// The host entries of a runtime inventory document `{all: {hosts: ...}}`.
pub open spec fn inventory_hosts(doc: Value) -> Option<Seq<Entry>> {
    match doc {
        Value::Mapping(top) => if top@.len() == 1 && is_key(top@[0].key, "all"@) {
            match top@[0].value {
                Value::Mapping(all) => if all@.len() == 1 && is_key(all@[0].key, "hosts"@) {
                    match all@[0].value {
                        Value::Mapping(entries) => Some(entries@),
                        _ => None,
                    }
                } else {
                    None
                },
                _ => None,
            }
        } else {
            None
        },
        _ => None,
    }
}

/// The runtime inventory document for `hosts`: `all.hosts`, each host with
/// its variables, in order.
pub fn inventory_document(hosts: Vec<HostBinding>) -> (r: Value)
    ensures
        inventory_hosts(r) matches Some(entries) && entries.len() == hosts@.len() && forall|i: int|
            0 <= i < hosts@.len() ==> is_key((#[trigger] entries[i]).key, hosts@[i].name@)
                && entries[i].value == hosts@[i].vars,
{
    let ghost names = names_of(hosts@);
    let mut entries: Vec<Entry> = Vec::new();
    let mut rest = hosts;
    let ghost original = rest@;
    while rest.len() > 0
        invariant
            entries@.len() + rest@.len() == original.len(),
            rest@ == original.subrange(entries@.len() as int, original.len() as int),
            forall|i: int| 0 <= i < entries@.len() ==> is_key((#[trigger] entries@[i]).key, original[i].name@)
                && entries@[i].value == original[i].vars,
        decreases rest.len(),
    {
        let ghost k = entries@.len();
        let host = rest.remove(0);
        assert(host == original[k as int]);
        entries.push(Entry { key: Value::String(host.name), value: host.vars });
        assert(rest@ =~= original.subrange(entries@.len() as int, original.len() as int));
    }
    proof {
        reveal_strlit("hosts");
        reveal_strlit("all");
    }
    let mut all: Vec<Entry> = Vec::new();
    all.push(Entry { key: string_value("hosts"), value: Value::Mapping(entries) });
    let mut top: Vec<Entry> = Vec::new();
    top.push(Entry { key: string_value("all"), value: Value::Mapping(all) });
    Value::Mapping(top)
}

/// The string keys of `entries`, in order.
pub open spec fn string_keys(entries: Seq<Entry>) -> Seq<Seq<char>>
    decreases entries.len(),
{
    if entries.len() == 0 {
        seq![]
    } else {
        string_keys(entries.drop_last()) + match entries.last().key {
            Value::String(s) => seq![s@],
            _ => seq![],
        }
    }
}

/// The hosts a runtime inventory document binds: the string keys of its
/// `all.hosts`, in order; none when it is not such a document.
pub open spec fn view_hosts(doc: Value) -> Seq<Seq<char>> {
    match inventory_hosts(doc) {
        Some(entries) => string_keys(entries),
        None => seq![],
    }
}

/// The hosts a runtime inventory document binds, read back from the view
/// file before Ansible runs.
pub fn view_host_names(doc: &Value) -> (r: Vec<String>)
    ensures
        r@.map_values(|s: String| s@) == view_hosts(*doc),
{
    let mut names: Vec<String> = Vec::new();
    let entries: &Vec<Entry> = match doc {
        Value::Mapping(top) => {
            if top.len() != 1 || !key_is(&top[0].key, "all") {
                return names;
            }
            match &top[0].value {
                Value::Mapping(all) => {
                    if all.len() != 1 || !key_is(&all[0].key, "hosts") {
                        return names;
                    }
                    match &all[0].value {
                        Value::Mapping(entries) => entries,
                        _ => {
                            return names;
                        },
                    }
                },
                _ => {
                    return names;
                },
            }
        },
        _ => {
            return names;
        },
    };
    assert(inventory_hosts(*doc) == Some(entries@));
    let mut i: usize = 0;
    while i < entries.len()
        invariant
            i <= entries@.len(),
            names@.map_values(|s: String| s@) == string_keys(entries@.take(i as int)),
        decreases entries.len() - i,
    {
        let ghost before = names@.map_values(|s: String| s@);
        assert(entries@.take(i + 1).drop_last() =~= entries@.take(i as int));
        match &entries[i].key {
            Value::String(name) => {
                names.push(name.clone());
                assert(names@.map_values(|s: String| s@) =~= before + seq![name@]);
            },
            _ => {
                assert(names@.map_values(|s: String| s@) =~= before + seq![]);
            },
        }
        i = i + 1;
    }
    assert(entries@.take(entries@.len() as int) =~= entries@);
    names
}

// ---------------------------------------------------------------------------
// Inventory sources.
/// Why inventory sources could not be handed to Ansible.
pub struct InventoryError(pub String);

/// `value` with `sources` appended, comma-separated: a separator is added
/// unless `value` is empty or already ends with a comma.
pub open spec fn appended(value: Seq<char>, sources: Seq<Seq<char>>) -> Seq<char>
    decreases sources.len(),
{
    if sources.len() == 0 {
        value
    } else {
        let v = appended(value, sources.drop_last());
        if v.len() > 0 && v.last() != ',' {
            v + seq![','] + sources.last()
        } else {
            v + sources.last()
        }
    }
}

/// Appends source paths to the comma-separated value of
/// `ANSIBLE_INVENTORY`.  A source containing a comma cannot be represented
/// there and is refused.
pub fn inventory_environment(value: String, sources: &Vec<String>) -> (r: Result<String, InventoryError>)
    ensures
        r is Err <==> exists|i: int| 0 <= i < sources@.len() && (#[trigger] sources@[i])@.contains(','),
        r matches Ok(v) ==> v@ == appended(value@, sources@.map_values(|s: String| s@)),
{
    let ghost views = sources@.map_values(|s: String| s@);
    let mut out = value;
    let mut i: usize = 0;
    while i < sources.len()
        invariant
            views == sources@.map_values(|s: String| s@),
            i <= sources@.len(),
            forall|j: int| 0 <= j < i ==> !(#[trigger] sources@[j])@.contains(','),
            out@ == appended(value@, views.take(i as int)),
        decreases sources.len() - i,
    {
        if crate::text::contains_char(sources[i].as_str(), ',') {
            return Err(
                InventoryError(
                    owned(
                        "inventory source paths containing commas cannot be passed through ANSIBLE_INVENTORY",
                    ),
                ),
            );
        }
        assert(views.take(i + 1).drop_last() =~= views.take(i as int));
        assert(views.take(i + 1).last() == sources@[i as int]@);
        let n = out.unicode_len();
        if n > 0 && out.get_char(n - 1) != ',' {
            out.append(",");
            proof {
                reveal_strlit(",");
            }
        }
        out.append(sources[i].as_str());
        proof {
            let before = appended(value@, views.take(i as int));
            if before.len() > 0 && before.last() != ',' {
                assert(out@ =~= before + seq![','] + views[i as int]);
            } else {
                assert(out@ =~= before + views[i as int]);
            }
        }
        i = i + 1;
    }
    assert(views.take(sources@.len() as int) =~= views);
    Ok(out)
}

/// The inventory sources of Ansible and pytest invocations: the
/// configured ones, relative to a working directory.
pub struct AnsibleInventory {
    pub working_directory: String,
    pub sources: Vec<String>,
}

impl AnsibleInventory {
    /// Inventory sources used from `working_directory`.
    pub fn new(working_directory: &str, sources: Vec<String>) -> (r: AnsibleInventory)
        ensures
            r.working_directory@ == working_directory@,
            r.sources == sources,
    {
        AnsibleInventory { working_directory: owned(working_directory), sources }
    }

    /// Whether Ansible's configured default sources are needed: nothing is
    /// inherited and nothing is configured.
    pub fn needs_default_sources(&self, inherited: &str) -> (r: bool)
        ensures
            r == (inherited@.len() == 0 && self.sources@.len() == 0),
    {
        inherited.unicode_len() == 0 && self.sources.len() == 0
    }

    /// Whether a subprocess needs `ANSIBLE_INVENTORY` set: there are
    /// configured sources or a runtime view.
    pub fn sets_environment(&self, overlay: Option<&str>) -> (r: bool)
        ensures
            r == (self.sources@.len() > 0 || overlay is Some),
    {
        self.sources.len() > 0 || overlay.is_some()
    }

    /// The value of `ANSIBLE_INVENTORY` for a subprocess: the inherited
    /// value, then the configured sources, or Ansible's defaults when
    /// nothing is inherited or configured, then the runtime view.
    pub fn environment(
        &self,
        inherited: &str,
        defaults: &Vec<String>,
        overlay: Option<&str>,
    ) -> (r: Result<String, InventoryError>)
        ensures
            r is Err <==> has_comma(
                environment_sources(
                    inherited@,
                    self.sources@.map_values(|s: String| s@),
                    defaults@.map_values(|s: String| s@),
                    match overlay {
                        Some(o) => Some(o@),
                        None => None,
                    },
                ),
            ),
            r matches Ok(v) ==> v@ == appended(
                inherited@,
                environment_sources(
                    inherited@,
                    self.sources@.map_values(|s: String| s@),
                    defaults@.map_values(|s: String| s@),
                    match overlay {
                        Some(o) => Some(o@),
                        None => None,
                    },
                ),
            ),
    {
        let mut sources: Vec<String> = Vec::new();
        let chosen = if inherited.unicode_len() == 0 && self.sources.len() == 0 {
            defaults
        } else {
            &self.sources
        };
        let mut i: usize = 0;
        while i < chosen.len()
            invariant
                i <= chosen@.len(),
                sources@ == chosen@.take(i as int),
            decreases chosen.len() - i,
        {
            sources.push(chosen[i].clone());
            assert(sources@ =~= chosen@.take(i + 1));
            i = i + 1;
        }
        assert(sources@ =~= chosen@);
        match overlay {
            Some(o) => {
                let ghost before = sources@.map_values(|s: String| s@);
                sources.push(owned(o));
                assert(sources@.map_values(|s: String| s@) =~= before.push(o@));
            },
            None => {},
        }
        let ghost views = sources@.map_values(|s: String| s@);
        assert(has_comma(views) <==> exists|i: int|
            0 <= i < sources@.len() && (#[trigger] sources@[i])@.contains(',')) by {
            if has_comma(views) {
                let i = choose|i: int| 0 <= i < views.len() && (#[trigger] views[i]).contains(',');
                assert(sources@[i]@.contains(','));
            }
            if exists|i: int| 0 <= i < sources@.len() && (#[trigger] sources@[i])@.contains(',') {
                let i = choose|i: int| 0 <= i < sources@.len() && (#[trigger] sources@[i])@.contains(',');
                assert(views[i].contains(','));
            }
        }
        inventory_environment(owned(inherited), &sources)
    }
}

/// Whether a source path holds a comma, which `ANSIBLE_INVENTORY` cannot
/// carry.
pub open spec fn has_comma(sources: Seq<Seq<char>>) -> bool {
    exists|i: int| 0 <= i < sources.len() && (#[trigger] sources[i]).contains(',')
}

/// The sources handed to Ansible after the inherited value: the configured
/// ones, or Ansible's defaults when nothing is inherited or configured, and
/// then the runtime view.
pub open spec fn environment_sources(
    inherited: Seq<char>,
    configured: Seq<Seq<char>>,
    defaults: Seq<Seq<char>>,
    overlay: Option<Seq<char>>,
) -> Seq<Seq<char>> {
    let base = if inherited.len() == 0 && configured.len() == 0 {
        defaults
    } else {
        configured
    };
    match overlay {
        Some(o) => base.push(o),
        None => base,
    }
}

/// The default host list Ansible reports in `ansible-config dump --format
/// json` output: the value of the first `DEFAULT_HOST_LIST` setting.
pub open spec fn default_host_list(settings: Value) -> Option<Seq<Value>> {
    match settings {
        Value::Sequence(items) => match first_setting(items@, "DEFAULT_HOST_LIST"@) {
            Some(i) => match items@[i] {
                Value::Mapping(es) => match lookup(es@, "value"@) {
                    Some(Value::Sequence(values)) => Some(values@),
                    _ => None,
                },
                _ => None,
            },
            None => None,
        },
        _ => None,
    }
}

/// Whether a setting is named `name`.
pub open spec fn setting_named(v: Value, name: Seq<char>) -> bool {
    v matches Value::Mapping(es) && (lookup(es@, "name"@) matches Some(Value::String(n)) && n@
        == name)
}

/// The position of the first setting named `name`.
pub open spec fn first_setting(items: Seq<Value>, name: Seq<char>) -> Option<int> {
    if exists|i: int| 0 <= i < items.len() && setting_named(#[trigger] items[i], name) {
        let i = choose|i: int|
            0 <= i < items.len() && setting_named(#[trigger] items[i], name) && forall|j: int|
                0 <= j < i ==> !setting_named(#[trigger] items[j], name);
        Some(i)
    } else {
        None
    }
}

/// The position of the first setting named `name`.
fn find_setting(items: &Vec<Value>, name: &str) -> (r: Option<usize>)
    ensures
        r matches Some(k) ==> k < items@.len() && first_setting(items@, name@) == Some(k as int),
        r is None ==> first_setting(items@, name@) is None,
{
    let mut k: usize = 0;
    while k < items.len()
        invariant
            k <= items@.len(),
            forall|j: int| 0 <= j < k ==> !setting_named(#[trigger] items@[j], name@),
        decreases items.len() - k,
    {
        let named = match &items[k] {
            Value::Mapping(es) => match get(es, "name") {
                Some(Value::String(n)) => str_eq(n.as_str(), name),
                _ => false,
            },
            _ => false,
        };
        if named {
            assert(setting_named(items@[k as int], name@));
            assert(first_setting(items@, name@) == Some(k as int)) by {
                let i = first_setting(items@, name@)->0;
                assert(!(i < k));
                assert(!(i > k));
            }
            return Some(k);
        }
        k = k + 1;
    }
    None
}

/// Reads the default inventory sources from `ansible-config dump --format
/// json` output.
pub fn default_sources(settings: &Value) -> (r: Result<Vec<String>, InventoryError>)
    ensures
        r is Ok <==> (default_host_list(*settings) matches Some(values) && forall|
            i: int,
        | 0 <= i < values.len() ==> values[i] is String),
        r matches Ok(v) ==> default_host_list(*settings) matches Some(values) && v@.len()
            == values.len() && forall|i: int|
            0 <= i < values.len() ==> values[i] == Value::String(#[trigger] v@[i]),
{
    proof {
        reveal_strlit("DEFAULT_HOST_LIST");
    }
    let items = match settings {
        Value::Sequence(items) => items,
        _ => {
            return Err(InventoryError(owned("invalid ansible-config output")));
        },
    };
    let k = match find_setting(items, "DEFAULT_HOST_LIST") {
        Some(k) => k,
        None => {
            return Err(InventoryError(owned("ansible-config omitted DEFAULT_HOST_LIST")));
        },
    };
    let values = match &items[k] {
        Value::Mapping(es) => match get(es, "value") {
            Some(Value::Sequence(values)) => values,
            _ => {
                return Err(InventoryError(owned("ansible-config omitted DEFAULT_HOST_LIST")));
            },
        },
        _ => {
            return Err(InventoryError(owned("ansible-config omitted DEFAULT_HOST_LIST")));
        },
    };
    assert(default_host_list(*settings) == Some(values@));
    let mut out: Vec<String> = Vec::new();
    let mut i: usize = 0;
    while i < values.len()
        invariant
            default_host_list(*settings) == Some(values@),
            i <= values@.len(),
            out@.len() == i,
            forall|j: int| 0 <= j < i ==> (#[trigger] values@[j]) is String,
            forall|j: int|
                0 <= j < i ==> values@[j] == Value::String(#[trigger] out@[j]),
        decreases values.len() - i,
    {
        match &values[i] {
            Value::String(s) => {
                out.push(s.clone());
            },
            _ => {
                return Err(InventoryError(owned("invalid DEFAULT_HOST_LIST")));
            },
        }
        i = i + 1;
    }
    Ok(out)
}


/// The host names that `ansible-inventory --list` output lists under any
/// group but `_meta`, in order (with repeats).
pub open spec fn listed_hosts(listing: Value) -> Seq<Seq<char>> {
    match listing {
        Value::Mapping(groups) => listed_in(groups@),
        _ => seq![],
    }
}

pub open spec fn listed_in(groups: Seq<Entry>) -> Seq<Seq<char>>
    decreases groups.len(),
{
    if groups.len() == 0 {
        seq![]
    } else {
        listed_in(groups.drop_last()) + if is_key(groups.last().key, "_meta"@) {
            seq![]
        } else {
            group_hosts(groups.last().value)
        }
    }
}

/// Whether a group of `ansible-inventory --list` output names the host
/// `name` among its `hosts`.
pub open spec fn group_names_host(group: Value, name: Seq<char>) -> bool {
    group matches Value::Mapping(es) && lookup(es@, "hosts"@) matches Some(Value::Sequence(hosts))
        && exists|h: int| 0 <= h < hosts@.len() && (#[trigger] hosts@[h] matches Value::String(x) && x@ == name)
}

proof fn lemma_strings_in_exactly(values: Seq<Value>, name: Seq<char>)
    ensures
        strings_in(values).contains(name) <==> exists|h: int|
            0 <= h < values.len() && (#[trigger] values[h] matches Value::String(x) && x@ == name),
    decreases values.len(),
{
    if values.len() > 0 {
        let d = values.drop_last();
        lemma_strings_in_exactly(d, name);
        let t = strings_in(values);
        let r = strings_in(d);
        if strings_in(values).contains(name) {
            let k = choose|k: int| 0 <= k < t.len() && t[k] == name;
            if k < r.len() {
                assert(r[k] == name);
                assert(r.contains(name));
                let h = choose|h: int| 0 <= h < d.len() && (#[trigger] d[h] matches Value::String(x) && x@ == name);
                assert(values[h] == d[h]);
            } else {
                assert(values[values.len() - 1] matches Value::String(x) && x@ == name);
            }
        }
        if exists|h: int| 0 <= h < values.len() && (#[trigger] values[h] matches Value::String(x) && x@ == name) {
            let h = choose|h: int| 0 <= h < values.len() && (#[trigger] values[h] matches Value::String(x) && x@ == name);
            if h < values.len() - 1 {
                assert(d[h] == values[h]);
                assert(r.contains(name));
                let k = choose|k: int| 0 <= k < r.len() && r[k] == name;
                assert(t[k] == name);
            } else {
                assert(t[r.len() as int] == name);
            }
        }
    }
}

proof fn lemma_listed_in_exactly(groups: Seq<Entry>, name: Seq<char>)
    ensures
        listed_in(groups).contains(name) <==> exists|g: int|
            0 <= g < groups.len() && !is_key((#[trigger] groups[g]).key, "_meta"@) && group_names_host(
                groups[g].value,
                name,
            ),
    decreases groups.len(),
{
    if groups.len() > 0 {
        let d = groups.drop_last();
        lemma_listed_in_exactly(d, name);
        let last = groups.last();
        let tail = if is_key(last.key, "_meta"@) {
            seq![]
        } else {
            group_hosts(last.value)
        };
        let t = listed_in(groups);
        let r = listed_in(d);
        assert(t == r + tail);
        let last_names = !is_key(last.key, "_meta"@) && group_names_host(last.value, name);
        assert(tail.contains(name) <==> last_names) by {
            if !is_key(last.key, "_meta"@) {
                match last.value {
                    Value::Mapping(es) => match lookup(es@, "hosts"@) {
                        Some(Value::Sequence(hosts)) => {
                            lemma_strings_in_exactly(hosts@, name);
                        },
                        _ => {},
                    },
                    _ => {},
                }
            }
        }
        if t.contains(name) {
            let k = choose|k: int| 0 <= k < t.len() && t[k] == name;
            if k < r.len() {
                assert(r[k] == name);
                assert(r.contains(name));
                let g = choose|g: int|
                    0 <= g < d.len() && !is_key((#[trigger] d[g]).key, "_meta"@) && group_names_host(
                        d[g].value,
                        name,
                    );
                assert(groups[g] == d[g]);
            } else {
                assert(tail[k - r.len()] == name);
                assert(tail.contains(name));
                assert(groups[groups.len() - 1] == last);
            }
        }
        if exists|g: int|
            0 <= g < groups.len() && !is_key((#[trigger] groups[g]).key, "_meta"@) && group_names_host(
                groups[g].value,
                name,
            ) {
            let g = choose|g: int|
                0 <= g < groups.len() && !is_key((#[trigger] groups[g]).key, "_meta"@) && group_names_host(
                    groups[g].value,
                    name,
                );
            if g < groups.len() - 1 {
                assert(d[g] == groups[g]);
                assert(r.contains(name));
                let k = choose|k: int| 0 <= k < r.len() && r[k] == name;
                assert(t[k] == name);
            } else {
                assert(tail.contains(name));
                let k = choose|k: int| 0 <= k < tail.len() && tail[k] == name;
                assert(t[r.len() + k] == name);
            }
        }
    }
}

/// The hosts that `ansible-inventory --list` output lists are exactly the
/// hosts named under the `hosts` of its groups other than `_meta`: every
/// such host is listed, whatever group names it, and nothing else is.
pub proof fn lemma_listed_hosts_exactly(listing: Value, name: Seq<char>)
    ensures
        listed_hosts(listing).contains(name) <==> (listing matches Value::Mapping(groups) && exists|g: int|
            0 <= g < groups@.len() && !is_key((#[trigger] groups@[g]).key, "_meta"@) && group_names_host(
                groups@[g].value,
                name,
            )),
{
    match listing {
        Value::Mapping(groups) => {
            lemma_listed_in_exactly(groups@, name);
        },
        _ => {},
    }
}

/// The string host names of one group of `ansible-inventory --list` output.
pub open spec fn group_hosts(group: Value) -> Seq<Seq<char>> {
    match group {
        Value::Mapping(es) => match lookup(es@, "hosts"@) {
            Some(Value::Sequence(hosts)) => strings_in(hosts@),
            _ => seq![],
        },
        _ => seq![],
    }
}

/// The strings among `values`, in order.
pub open spec fn strings_in(values: Seq<Value>) -> Seq<Seq<char>>
    decreases values.len(),
{
    if values.len() == 0 {
        seq![]
    } else {
        strings_in(values.drop_last()) + match values.last() {
            Value::String(s) => seq![s@],
            _ => seq![],
        }
    }
}

/// The host names listed by `ansible-inventory --list` output.
pub fn inventory_host_names(listing: &Value) -> (r: Vec<String>)
    ensures
        r@.map_values(|s: String| s@) == listed_hosts(*listing),
{
    let mut out: Vec<String> = Vec::new();
    let groups = match listing {
        Value::Mapping(groups) => groups,
        _ => {
            assert(out@.map_values(|s: String| s@) =~= seq![]);
            return out;
        },
    };
    let mut i: usize = 0;
    assert(out@.map_values(|s: String| s@) =~= listed_in(groups@.take(0)));
    while i < groups.len()
        invariant
            i <= groups@.len(),
            out@.map_values(|s: String| s@) == listed_in(groups@.take(i as int)),
        decreases groups.len() - i,
    {
        assert(groups@.take(i + 1).drop_last() =~= groups@.take(i as int));
        assert(groups@.take(i + 1).last() == groups@[i as int]);
        let ghost before = out@.map_values(|s: String| s@);
        if !crate::value::key_is(&groups[i].key, "_meta") {
            match &groups[i].value {
                Value::Mapping(es) => match get(es, "hosts") {
                    Some(Value::Sequence(hosts)) => {
                        let mut j: usize = 0;
                        while j < hosts.len()
                            invariant
                                j <= hosts@.len(),
                                out@.map_values(|s: String| s@) == before + strings_in(hosts@.take(j as int)),
                            decreases hosts.len() - j,
                        {
                            assert(hosts@.take(j + 1).drop_last() =~= hosts@.take(j as int));
                            assert(hosts@.take(j + 1).last() == hosts@[j as int]);
                            let ghost mid = out@.map_values(|s: String| s@);
                            match &hosts[j] {
                                Value::String(h) => {
                                    out.push(h.clone());
                                    assert(out@.map_values(|s: String| s@) =~= mid.push(h@));
                                },
                                _ => {},
                            }
                            j = j + 1;
                        }
                        assert(hosts@.take(hosts@.len() as int) =~= hosts@);
                    },
                    _ => {
                        assert(out@.map_values(|s: String| s@) =~= before + seq![]);
                    },
                },
                _ => {
                    assert(out@.map_values(|s: String| s@) =~= before + seq![]);
                },
            }
        } else {
            assert(out@.map_values(|s: String| s@) =~= before + seq![]);
        }
        i = i + 1;
    }
    assert(groups@.take(groups@.len() as int) =~= groups@);
    out
}

/// Checks that every host a runtime view binds is known to the configured
/// inventory: a typo in a reported binding must not add a host.
pub fn check_bindings(hosts: &Vec<HostBinding>, known: &Vec<String>) -> (r: Result<(), InventoryError>)
    ensures
        r is Ok <==> forall|i: int|
            0 <= i < hosts@.len() ==> known@.map_values(|s: String| s@).contains(
                (#[trigger] hosts@[i]).name@,
            ),
{
    let ghost names = known@.map_values(|s: String| s@);
    let mut i: usize = 0;
    while i < hosts.len()
        invariant
            names == known@.map_values(|s: String| s@),
            i <= hosts@.len(),
            forall|j: int| 0 <= j < i ==> names.contains((#[trigger] hosts@[j]).name@),
        decreases hosts.len() - i,
    {
        let mut found = false;
        let mut j: usize = 0;
        while j < known.len()
            invariant
                names == known@.map_values(|s: String| s@),
                i < hosts@.len(),
                j <= known@.len(),
                found ==> names.contains(hosts@[i as int].name@),
                !found ==> forall|m: int| 0 <= m < j ==> names[m] != hosts@[i as int].name@,
            decreases known.len() - j,
        {
            if !found && str_eq(known[j].as_str(), hosts[i].name.as_str()) {
                found = true;
                assert(names[j as int] == hosts@[i as int].name@);
            }
            j = j + 1;
        }
        if !found {
            let mut message = owned("resource binds unknown inventory host `");
            message.append(hosts[i].name.as_str());
            message.append("`");
            return Err(InventoryError(message));
        }
        i = i + 1;
    }
    Ok(())
}


/// A runtime inventory never binds one host twice: the hosts bound by
/// visible resources, when accepted, are distinct.
pub proof fn lemma_host_names_distinct(rs: Seq<Resource>)
    ensures
        host_names(rs) matches Some(names) ==> forall|i: int, j: int|
            0 <= i < j < names.len() ==> names[i] != names[j],
    decreases rs.len(),
{
    if rs.len() > 0 {
        lemma_host_names_distinct(rs.drop_last());
        match host_names(rs.drop_last()) {
            Some(prev) => match binding_of(rs.last()) {
                Binding::Host(name) => if !prev.contains(name) {
                    let names = prev.push(name);
                    assert forall|i: int, j: int| 0 <= i < j < names.len() implies names[i] != names[j] by {
                        if j == prev.len() {
                            assert(names[i] == prev[i]);
                        }
                    }
                },
                _ => {},
            },
            None => {},
        }
    }
}

} // verus!

//! Writes a flavor's spec as a JSON document.

use crate::crds;
use crate::crds::{
    DpuFlavorConfigFiles, DpuFlavorConfigFilesOperation, DpuFlavorConfigFilesView,
    DpuFlavorDpuMode, DpuFlavorNvconfig, DpuFlavorNvconfigDevice, DpuFlavorNvconfigView,
    DpuFlavorOvs, DpuFlavorOvsView, DpuFlavorSpec, DpuFlavorSpecView,
};
use crate::error::DpfError;
use crate::json;
use crate::json::{JsonTree, json_array, json_object, json_string, json_to_string};
use crate::ordering;
use vstd::prelude::*;

verus! {

/// Every key of the members precedes `key`.
spec fn keys_below(members: Seq<(Seq<char>, JsonTree)>, key: Seq<char>) -> bool {
    forall|i: int| 0 <= i < members.len() ==> ordering::precedes((#[trigger] members[i]).0, key)
}

/// Every key of the members precedes `key` or is `key`.
spec fn keys_up_to(members: Seq<(Seq<char>, JsonTree)>, key: Seq<char>) -> bool {
    forall|i: int|
        0 <= i < members.len() ==> ordering::precedes((#[trigger] members[i]).0, key)
            || members[i].0 == key
}

proof fn lemma_next_key(members: Seq<(Seq<char>, JsonTree)>, key: Seq<char>, next: Seq<char>)
    requires
        keys_up_to(members, key),
        ordering::precedes(key, next),
    ensures
        keys_below(members, next),
{
    assert forall|i: int| 0 <= i < members.len() implies ordering::precedes(
        (#[trigger] members[i]).0,
        next,
    ) by {
        if members[i].0 != key {
            ordering::lemma_precedes_transitive(members[i].0, key, next);
        }
    }
}

/// Appends the member that a field is written as.
fn put(list: &mut Vec<(String, serde_json::Value)>, key: &str, value: Option<serde_json::Value>)
    requires
        json::ascending_keys(json::members_of(old(list)@)),
        keys_below(json::members_of(old(list)@), key@),
    ensures
        json::members_of(final(list)@) == json::members_of(old(list)@) + crds::member(key@, crds::section(value)),
        json::ascending_keys(json::members_of(final(list)@)),
        keys_up_to(json::members_of(final(list)@), key@),
{
    let ghost before = json::members_of(list@);
    if let Some(value) = value {
        list.push((key.to_owned(), value));
    }
    proof {
        assert(json::members_of(list@) =~= before + crds::member(key@, crds::section(value)));
    }
}

/// A list of strings as JSON.
fn strings_to_value(list: &Vec<String>) -> (value: serde_json::Value)
    ensures
        Some(json::json_tree(value)) == crds::strings_tree(Some(list.deep_view())),
{
    let mut items: Vec<serde_json::Value> = Vec::new();
    let mut n: usize = 0;
    while n < list.len()
        invariant
            n == items.len(),
            n <= list.len(),
            forall|i: int|
                0 <= i < n ==> json::json_tree(#[trigger] items@[i]) == JsonTree::Text(
                    list.deep_view()[i],
                ),
        decreases list.len() - n,
    {
        items.push(json_string(list[n].as_str()));
        n = n + 1;
    }
    assert(items@.map_values(|item: serde_json::Value| json::json_tree(item))
        =~= list.deep_view().map_values(|s: Seq<char>| JsonTree::Text(s)));
    json_array(items)
}

/// A string field as JSON.
fn text_to_value(field: &Option<String>) -> (value: Option<serde_json::Value>)
    ensures
        crds::section(value) == crds::text_tree(field.deep_view()),
{
    match field {
        Some(s) => Some(json_string(s.as_str())),
        None => None,
    }
}

proof fn lemma_first_difference(a: Seq<char>, b: Seq<char>, i: int)
    requires
        0 <= i < a.len(),
        i < b.len(),
        forall|j: int| 0 <= j < i ==> a[j] == b[j],
        a[i] < b[i],
    ensures
        ordering::precedes(a, b),
{
    assert(a.take(i) =~= b.take(i));
    assert(ordering::smaller_at(a, b, i));
}

proof fn lemma_file_keys()
    ensures
        ordering::precedes("operation"@, "path"@),
        ordering::precedes("path"@, "permissions"@),
        ordering::precedes("permissions"@, "raw"@),
{
    reveal_strlit("operation");
    reveal_strlit("path");
    reveal_strlit("permissions");
    reveal_strlit("raw");
    lemma_first_difference("operation"@, "path"@, 0);
    lemma_first_difference("path"@, "permissions"@, 1);
    lemma_first_difference("permissions"@, "raw"@, 0);
}

proof fn lemma_nvconfig_keys()
    ensures
        ordering::precedes("device"@, "parameters"@),
{
    reveal_strlit("device");
    reveal_strlit("parameters");
    lemma_first_difference("device"@, "parameters"@, 0);
}

proof fn lemma_spec_keys()
    ensures
        ordering::precedes("bfcfgParameters"@, "configFiles"@),
        ordering::precedes("configFiles"@, "containerdConfig"@),
        ordering::precedes("containerdConfig"@, "dpuMode"@),
        ordering::precedes("dpuMode"@, "dpuResources"@),
        ordering::precedes("dpuResources"@, "grub"@),
        ordering::precedes("grub"@, "hostNetworkInterfaceConfigs"@),
        ordering::precedes("hostNetworkInterfaceConfigs"@, "nvconfig"@),
        ordering::precedes("nvconfig"@, "ovs"@),
        ordering::precedes("ovs"@, "sysctl"@),
        ordering::precedes("sysctl"@, "systemReservedResources"@),
{
    reveal_strlit("bfcfgParameters");
    reveal_strlit("configFiles");
    reveal_strlit("containerdConfig");
    reveal_strlit("dpuMode");
    reveal_strlit("dpuResources");
    reveal_strlit("grub");
    reveal_strlit("hostNetworkInterfaceConfigs");
    reveal_strlit("nvconfig");
    reveal_strlit("ovs");
    reveal_strlit("sysctl");
    reveal_strlit("systemReservedResources");
    lemma_first_difference("bfcfgParameters"@, "configFiles"@, 0);
    lemma_first_difference("configFiles"@, "containerdConfig"@, 3);
    lemma_first_difference("containerdConfig"@, "dpuMode"@, 0);
    lemma_first_difference("dpuMode"@, "dpuResources"@, 3);
    lemma_first_difference("dpuResources"@, "grub"@, 0);
    lemma_first_difference("grub"@, "hostNetworkInterfaceConfigs"@, 0);
    lemma_first_difference("hostNetworkInterfaceConfigs"@, "nvconfig"@, 0);
    lemma_first_difference("nvconfig"@, "ovs"@, 0);
    lemma_first_difference("ovs"@, "sysctl"@, 0);
    lemma_first_difference("sysctl"@, "systemReservedResources"@, 3);
}

/// The document of a file.
fn file_to_value(file: &DpuFlavorConfigFiles) -> (value: serde_json::Value)
    ensures
        json::json_tree(value) == file.deep_view().tree(),
{
    proof {
        lemma_file_keys();
    }
    let mut list: Vec<(String, serde_json::Value)> = Vec::new();
    let operation: Option<serde_json::Value> = match &file.operation {
        Some(operation) => Some(json_string(operation.as_str())),
        None => None,
    };
    put(&mut list, "operation", operation);
    proof {
        lemma_next_key(json::members_of(list@), "operation"@, "path"@);
    }
    put(&mut list, "path", text_to_value(&file.path));
    proof {
        lemma_next_key(json::members_of(list@), "path"@, "permissions"@);
    }
    put(&mut list, "permissions", text_to_value(&file.permissions));
    proof {
        lemma_next_key(json::members_of(list@), "permissions"@, "raw"@);
    }
    put(&mut list, "raw", text_to_value(&file.raw));
    assert(json::members_of(list@) =~= file.deep_view().members());
    json_object(list)
}

/// The document of firmware parameters.
fn nvconfig_to_value(nvconfig: &DpuFlavorNvconfig) -> (value: serde_json::Value)
    ensures
        json::json_tree(value) == nvconfig.deep_view().tree(),
{
    proof {
        lemma_nvconfig_keys();
    }
    let mut list: Vec<(String, serde_json::Value)> = Vec::new();
    let device: Option<serde_json::Value> = match &nvconfig.device {
        Some(device) => Some(json_string(device.as_str())),
        None => None,
    };
    put(&mut list, "device", device);
    proof {
        lemma_next_key(json::members_of(list@), "device"@, "parameters"@);
    }
    let parameters: Option<serde_json::Value> = match &nvconfig.parameters {
        Some(parameters) => Some(strings_to_value(parameters)),
        None => None,
    };
    put(&mut list, "parameters", parameters);
    assert(json::members_of(list@) =~= nvconfig.deep_view().members());
    json_object(list)
}

/// The document of the Open vSwitch set-up.
fn ovs_to_value(ovs: &DpuFlavorOvs) -> (value: serde_json::Value)
    ensures
        json::json_tree(value) == ovs.deep_view().tree(),
{
    let mut list: Vec<(String, serde_json::Value)> = Vec::new();
    put(&mut list, "rawConfigScript", text_to_value(&ovs.raw_config_script));
    assert(json::members_of(list@) =~= ovs.deep_view().members());
    json_object(list)
}

/// The documents of files.
fn files_to_value(files: &Vec<DpuFlavorConfigFiles>) -> (value: serde_json::Value)
    ensures
        json::json_tree(value) == JsonTree::List(
            files.deep_view().map_values(|file: DpuFlavorConfigFilesView| file.tree()),
        ),
{
    let mut items: Vec<serde_json::Value> = Vec::new();
    let mut n: usize = 0;
    while n < files.len()
        invariant
            n == items.len(),
            n <= files.len(),
            forall|i: int|
                0 <= i < n ==> json::json_tree(#[trigger] items@[i])
                    == files.deep_view()[i].tree(),
        decreases files.len() - n,
    {
        items.push(file_to_value(&files[n]));
        n = n + 1;
    }
    assert(items@.map_values(|item: serde_json::Value| json::json_tree(item))
        =~= files.deep_view().map_values(|file: DpuFlavorConfigFilesView| file.tree()));
    json_array(items)
}

/// The documents of firmware parameters.
fn nvconfigs_to_value(list: &Vec<DpuFlavorNvconfig>) -> (value: serde_json::Value)
    ensures
        json::json_tree(value) == JsonTree::List(
            list.deep_view().map_values(|nvconfig: DpuFlavorNvconfigView| nvconfig.tree()),
        ),
{
    let mut items: Vec<serde_json::Value> = Vec::new();
    let mut n: usize = 0;
    while n < list.len()
        invariant
            n == items.len(),
            n <= list.len(),
            forall|i: int|
                0 <= i < n ==> json::json_tree(#[trigger] items@[i])
                    == list.deep_view()[i].tree(),
        decreases list.len() - n,
    {
        items.push(nvconfig_to_value(&list[n]));
        n = n + 1;
    }
    assert(items@.map_values(|item: serde_json::Value| json::json_tree(item))
        =~= list.deep_view().map_values(|nvconfig: DpuFlavorNvconfigView| nvconfig.tree()));
    json_array(items)
}

/// A section that is carried as JSON.
fn section_to_value(field: &Option<serde_json::Value>) -> (value: Option<serde_json::Value>)
    ensures
        crds::section(value) == crds::section(*field),
{
    match field {
        Some(value) => Some(value.clone()),
        None => None,
    }
}

impl DpuFlavorSpec {
    /// The spec as a JSON value.
    fn to_value(&self) -> (value: serde_json::Value)
        ensures
            json::json_tree(value) == self.deep_view().tree(),
    {
        proof {
            lemma_spec_keys();
        }
        let mut list: Vec<(String, serde_json::Value)> = Vec::new();
        let bfcfg_parameters: Option<serde_json::Value> = match &self.bfcfg_parameters {
            Some(parameters) => Some(strings_to_value(parameters)),
            None => None,
        };
        put(&mut list, "bfcfgParameters", bfcfg_parameters);
        proof {
            lemma_next_key(json::members_of(list@), "bfcfgParameters"@, "configFiles"@);
        }
        let config_files: Option<serde_json::Value> = match &self.config_files {
            Some(files) => Some(files_to_value(files)),
            None => None,
        };
        put(&mut list, "configFiles", config_files);
        proof {
            lemma_next_key(json::members_of(list@), "configFiles"@, "containerdConfig"@);
        }
        put(&mut list, "containerdConfig", section_to_value(&self.containerd_config));
        proof {
            lemma_next_key(json::members_of(list@), "containerdConfig"@, "dpuMode"@);
        }
        let dpu_mode: Option<serde_json::Value> = match &self.dpu_mode {
            Some(mode) => Some(json_string(mode.as_str())),
            None => None,
        };
        put(&mut list, "dpuMode", dpu_mode);
        proof {
            lemma_next_key(json::members_of(list@), "dpuMode"@, "dpuResources"@);
        }
        put(&mut list, "dpuResources", section_to_value(&self.dpu_resources));
        proof {
            lemma_next_key(json::members_of(list@), "dpuResources"@, "grub"@);
        }
        put(&mut list, "grub", section_to_value(&self.grub));
        proof {
            lemma_next_key(json::members_of(list@), "grub"@, "hostNetworkInterfaceConfigs"@);
        }
        put(
            &mut list,
            "hostNetworkInterfaceConfigs",
            section_to_value(&self.host_network_interface_configs),
        );
        proof {
            lemma_next_key(json::members_of(list@), "hostNetworkInterfaceConfigs"@, "nvconfig"@);
        }
        let nvconfig: Option<serde_json::Value> = match &self.nvconfig {
            Some(nvconfigs) => Some(nvconfigs_to_value(nvconfigs)),
            None => None,
        };
        put(&mut list, "nvconfig", nvconfig);
        proof {
            lemma_next_key(json::members_of(list@), "nvconfig"@, "ovs"@);
        }
        let ovs: Option<serde_json::Value> = match &self.ovs {
            Some(ovs) => Some(ovs_to_value(ovs)),
            None => None,
        };
        put(&mut list, "ovs", ovs);
        proof {
            lemma_next_key(json::members_of(list@), "ovs"@, "sysctl"@);
        }
        put(&mut list, "sysctl", section_to_value(&self.sysctl));
        proof {
            lemma_next_key(json::members_of(list@), "sysctl"@, "systemReservedResources"@);
        }
        put(
            &mut list,
            "systemReservedResources",
            section_to_value(&self.system_reserved_resources),
        );
        assert(json::members_of(list@) =~= self.deep_view().members());
        json_object(list)
    }

    /// Writes the spec as compact JSON. Unset fields are left out. Every section that is carried as
    /// JSON holds well-formed JSON.
    pub fn to_json(&self) -> (text: Result<String, DpfError>)
        ensures
            text is Ok,
            text->Ok_0@ == json::compact(self.deep_view().tree()),
            well_formed(self.deep_view()),
    {
        match json_to_string(&self.to_value()) {
            Ok(text) => {
                proof {
                    lemma_tree_well_formed(self.deep_view());
                }
                Ok(text)
            },
            Err(error) => Err(DpfError::JsonError(error)),
        }
    }
}

/// The sections that are carried as JSON hold well-formed JSON.
pub open spec fn well_formed(spec: DpuFlavorSpecView) -> bool {
    &&& section_well_formed(spec.containerd_config)
    &&& section_well_formed(spec.dpu_resources)
    &&& section_well_formed(spec.grub)
    &&& section_well_formed(spec.host_network_interface_configs)
    &&& section_well_formed(spec.sysctl)
    &&& section_well_formed(spec.system_reserved_resources)
}

/// A section is unset or holds well-formed JSON.
pub open spec fn section_well_formed(section: Option<JsonTree>) -> bool {
    section matches Some(tree) ==> json::well_formed(tree)
}

proof fn lemma_append_well_formed(
    members: Seq<(Seq<char>, JsonTree)>,
    key: Seq<char>,
    value: Option<JsonTree>,
)
    requires
        json::well_formed_members(members),
        section_well_formed(value),
    ensures
        json::well_formed_members(members + crds::member(key, value)),
    decreases members.len(),
{
    let all = members + crds::member(key, value);
    if members.len() == 0 {
        assert(all =~= crds::member(key, value));
        if value is Some {
            assert(all[0].1 == value->0);
            assert(all.skip(1).len() == 0);
            assert(json::well_formed_members(all.skip(1)));
        }
    } else {
        lemma_append_well_formed(members.skip(1), key, value);
        assert(all[0] == members[0]);
        assert(all.skip(1) =~= members.skip(1) + crds::member(key, value));
    }
}

proof fn lemma_items_well_formed(items: Seq<JsonTree>)
    requires
        forall|i: int| 0 <= i < items.len() ==> json::well_formed(#[trigger] items[i]),
    ensures
        json::well_formed_items(items),
    decreases items.len(),
{
    if items.len() > 0 {
        let tail = items.skip(1);
        assert forall|i: int| 0 <= i < tail.len() implies json::well_formed(#[trigger] tail[i]) by {
            assert(tail[i] == items[i + 1]);
        }
        lemma_items_well_formed(tail);
    }
}

proof fn lemma_strings_well_formed(field: Option<Seq<Seq<char>>>)
    ensures
        section_well_formed(crds::strings_tree(field)),
{
    if let Some(list) = field {
        lemma_items_well_formed(list.map_values(|s: Seq<char>| JsonTree::Text(s)));
    }
}

/// A member is told from those before it by its key.
proof fn lemma_peel(
    a: Seq<(Seq<char>, JsonTree)>,
    x: Option<JsonTree>,
    b: Seq<(Seq<char>, JsonTree)>,
    y: Option<JsonTree>,
    key: Seq<char>,
)
    requires
        keys_below(a, key),
        keys_below(b, key),
        a + crds::member(key, x) == b + crds::member(key, y),
    ensures
        a == b,
        x == y,
{
    let p = a + crds::member(key, x);
    let q = b + crds::member(key, y);
    assert(p.len() == q.len());
    ordering::lemma_precedes_irreflexive(key);
    if x is Some && y is None {
        assert(p.last() == (key, x->0));
        assert(q.last() == b[b.len() - 1]);
        assert(ordering::precedes(b[b.len() - 1].0, key));
    }
    if x is None && y is Some {
        assert(q.last() == (key, y->0));
        assert(p.last() == a[a.len() - 1]);
        assert(ordering::precedes(a[a.len() - 1].0, key));
    }
    if x is Some {
        assert(p.last() == (key, x->0));
        assert(q.last() == (key, y->0));
    }
    assert forall|i: int| 0 <= i < a.len() implies a[i] == b[i] by {
        assert(p[i] == q[i]);
    }
    assert(a =~= b);
}

/// After a member's key any later key can follow.
proof fn lemma_extend(
    a: Seq<(Seq<char>, JsonTree)>,
    x: Option<JsonTree>,
    key: Seq<char>,
    next: Seq<char>,
)
    requires
        keys_below(a, key),
        ordering::precedes(key, next),
    ensures
        keys_below(a + crds::member(key, x), next),
{
    let all = a + crds::member(key, x);
    assert(keys_up_to(all, key)) by {
        assert forall|i: int| 0 <= i < all.len() implies ordering::precedes(
            (#[trigger] all[i]).0,
            key,
        ) || all[i].0 == key by {
            if i < a.len() {
                assert(all[i] == a[i]);
            }
        }
    }
    lemma_next_key(all, key, next);
}

proof fn lemma_strings_tree_injective(a: Option<Seq<Seq<char>>>, b: Option<Seq<Seq<char>>>)
    requires
        crds::strings_tree(a) == crds::strings_tree(b),
    ensures
        a == b,
{
    if let (Some(p), Some(q)) = (a, b) {
        let f = |s: Seq<char>| JsonTree::Text(s);
        assert(p.map_values(f) == q.map_values(f));
        assert(p.map_values(f).len() == p.len());
        assert(q.map_values(f).len() == q.len());
        assert forall|i: int| 0 <= i < p.len() implies p[i] == q[i] by {
            assert(p.map_values(f)[i] == JsonTree::Text(p[i]));
            assert(q.map_values(f)[i] == JsonTree::Text(q[i]));
        }
        assert(p =~= q);
    }
}

proof fn lemma_file_tree(file: DpuFlavorConfigFilesView)
    ensures
        json::well_formed(file.tree()),
{
    let operation = match file.operation {
        Some(operation) => Some(operation.text()),
        None => None,
    };
    let m0 = Seq::<(Seq<char>, JsonTree)>::empty();
    let m1 = crds::member("operation"@, crds::text_tree(operation));
    let m2 = m1 + crds::member("path"@, crds::text_tree(file.path));
    let m3 = m2 + crds::member("permissions"@, crds::text_tree(file.permissions));
    assert(m1 =~= m0 + m1);
    lemma_append_well_formed(m0, "operation"@, crds::text_tree(operation));
    lemma_append_well_formed(m1, "path"@, crds::text_tree(file.path));
    lemma_append_well_formed(m2, "permissions"@, crds::text_tree(file.permissions));
    lemma_append_well_formed(m3, "raw"@, crds::text_tree(file.raw));
}

proof fn lemma_file_tree_injective(a: DpuFlavorConfigFilesView, b: DpuFlavorConfigFilesView)
    requires
        a.tree() == b.tree(),
    ensures
        a == b,
{
    lemma_file_keys();
    let a0 = match a.operation {
        Some(operation) => Some(operation.text()),
        None => None,
    };
    let b0 = match b.operation {
        Some(operation) => Some(operation.text()),
        None => None,
    };
    let e = Seq::<(Seq<char>, JsonTree)>::empty();
    let a1 = crds::member("operation"@, crds::text_tree(a0));
    let a2 = a1 + crds::member("path"@, crds::text_tree(a.path));
    let a3 = a2 + crds::member("permissions"@, crds::text_tree(a.permissions));
    let b1 = crds::member("operation"@, crds::text_tree(b0));
    let b2 = b1 + crds::member("path"@, crds::text_tree(b.path));
    let b3 = b2 + crds::member("permissions"@, crds::text_tree(b.permissions));
    assert(a1 =~= e + a1);
    assert(b1 =~= e + b1);
    lemma_extend(e, crds::text_tree(a0), "operation"@, "path"@);
    lemma_extend(e, crds::text_tree(b0), "operation"@, "path"@);
    lemma_extend(a1, crds::text_tree(a.path), "path"@, "permissions"@);
    lemma_extend(b1, crds::text_tree(b.path), "path"@, "permissions"@);
    lemma_extend(a2, crds::text_tree(a.permissions), "permissions"@, "raw"@);
    lemma_extend(b2, crds::text_tree(b.permissions), "permissions"@, "raw"@);
    assert(a.members() == b.members());
    lemma_peel(a3, crds::text_tree(a.raw), b3, crds::text_tree(b.raw), "raw"@);
    lemma_peel(
        a2,
        crds::text_tree(a.permissions),
        b2,
        crds::text_tree(b.permissions),
        "permissions"@,
    );
    lemma_peel(a1, crds::text_tree(a.path), b1, crds::text_tree(b.path), "path"@);
    lemma_peel(e, crds::text_tree(a0), e, crds::text_tree(b0), "operation"@);
}

proof fn lemma_nvconfig_tree(nvconfig: DpuFlavorNvconfigView)
    ensures
        json::well_formed(nvconfig.tree()),
{
    let device = match nvconfig.device {
        Some(device) => Some(device.text()),
        None => None,
    };
    let m0 = Seq::<(Seq<char>, JsonTree)>::empty();
    let m1 = crds::member("device"@, crds::text_tree(device));
    assert(m1 =~= m0 + m1);
    lemma_append_well_formed(m0, "device"@, crds::text_tree(device));
    lemma_strings_well_formed(nvconfig.parameters);
    lemma_append_well_formed(m1, "parameters"@, crds::strings_tree(nvconfig.parameters));
}

proof fn lemma_nvconfig_tree_injective(a: DpuFlavorNvconfigView, b: DpuFlavorNvconfigView)
    requires
        a.tree() == b.tree(),
    ensures
        a == b,
{
    lemma_nvconfig_keys();
    let a0 = match a.device {
        Some(device) => Some(device.text()),
        None => None,
    };
    let b0 = match b.device {
        Some(device) => Some(device.text()),
        None => None,
    };
    let e = Seq::<(Seq<char>, JsonTree)>::empty();
    let a1 = crds::member("device"@, crds::text_tree(a0));
    let b1 = crds::member("device"@, crds::text_tree(b0));
    assert(a1 =~= e + a1);
    assert(b1 =~= e + b1);
    lemma_extend(e, crds::text_tree(a0), "device"@, "parameters"@);
    lemma_extend(e, crds::text_tree(b0), "device"@, "parameters"@);
    assert(a.members() == b.members());
    lemma_peel(
        a1,
        crds::strings_tree(a.parameters),
        b1,
        crds::strings_tree(b.parameters),
        "parameters"@,
    );
    lemma_peel(e, crds::text_tree(a0), e, crds::text_tree(b0), "device"@);
    lemma_strings_tree_injective(a.parameters, b.parameters);
}

proof fn lemma_ovs_tree(ovs: DpuFlavorOvsView)
    ensures
        json::well_formed(ovs.tree()),
{
    let m0 = Seq::<(Seq<char>, JsonTree)>::empty();
    assert(ovs.members() =~= m0 + ovs.members());
    lemma_append_well_formed(m0, "rawConfigScript"@, crds::text_tree(ovs.raw_config_script));
}

proof fn lemma_ovs_tree_injective(a: DpuFlavorOvsView, b: DpuFlavorOvsView)
    requires
        a.tree() == b.tree(),
    ensures
        a == b,
{
    let e = Seq::<(Seq<char>, JsonTree)>::empty();
    assert(a.members() == b.members());
    assert(a.members() =~= e + a.members());
    assert(b.members() =~= e + b.members());
    lemma_peel(
        e,
        crds::text_tree(a.raw_config_script),
        e,
        crds::text_tree(b.raw_config_script),
        "rawConfigScript"@,
    );
}

/// The document of the files of a spec.
spec fn files_tree(spec: DpuFlavorSpecView) -> Option<JsonTree> {
    match spec.config_files {
        Some(files) => Some(
            JsonTree::List(files.map_values(|file: DpuFlavorConfigFilesView| file.tree())),
        ),
        None => None,
    }
}

/// The document of the mode of a spec.
spec fn mode_tree(spec: DpuFlavorSpecView) -> Option<JsonTree> {
    crds::text_tree(
        match spec.dpu_mode {
            Some(mode) => Some(mode.text()),
            None => None,
        },
    )
}

/// The document of the firmware parameters of a spec.
spec fn nvconfigs_tree(spec: DpuFlavorSpecView) -> Option<JsonTree> {
    match spec.nvconfig {
        Some(list) => Some(
            JsonTree::List(list.map_values(|nvconfig: DpuFlavorNvconfigView| nvconfig.tree())),
        ),
        None => None,
    }
}

/// The document of the Open vSwitch set-up of a spec.
spec fn ovs_tree(spec: DpuFlavorSpecView) -> Option<JsonTree> {
    match spec.ovs {
        Some(ovs) => Some(ovs.tree()),
        None => None,
    }
}

/// The keys of a spec's document.
spec fn spec_key(n: nat) -> Seq<char> {
    if n == 0 {
        "bfcfgParameters"@
    } else if n == 1 {
        "configFiles"@
    } else if n == 2 {
        "containerdConfig"@
    } else if n == 3 {
        "dpuMode"@
    } else if n == 4 {
        "dpuResources"@
    } else if n == 5 {
        "grub"@
    } else if n == 6 {
        "hostNetworkInterfaceConfigs"@
    } else if n == 7 {
        "nvconfig"@
    } else if n == 8 {
        "ovs"@
    } else if n == 9 {
        "sysctl"@
    } else {
        "systemReservedResources"@
    }
}

/// What a spec's document holds under each key.
spec fn spec_value(spec: DpuFlavorSpecView, n: nat) -> Option<JsonTree> {
    if n == 0 {
        crds::strings_tree(spec.bfcfg_parameters)
    } else if n == 1 {
        files_tree(spec)
    } else if n == 2 {
        spec.containerd_config
    } else if n == 3 {
        mode_tree(spec)
    } else if n == 4 {
        spec.dpu_resources
    } else if n == 5 {
        spec.grub
    } else if n == 6 {
        spec.host_network_interface_configs
    } else if n == 7 {
        nvconfigs_tree(spec)
    } else if n == 8 {
        ovs_tree(spec)
    } else if n == 9 {
        spec.sysctl
    } else {
        spec.system_reserved_resources
    }
}

/// The members under the first `n` keys.
spec fn spec_members(spec: DpuFlavorSpecView, n: nat) -> Seq<(Seq<char>, JsonTree)>
    decreases n,
{
    if n == 0 {
        Seq::empty()
    } else {
        let m = (n - 1) as nat;
        spec_members(spec, m) + crds::member(spec_key(m), spec_value(spec, m))
    }
}

proof fn lemma_spec_members(spec: DpuFlavorSpecView)
    ensures
        spec.members() == spec_members(spec, 11),
{
    reveal_with_fuel(spec_members, 12);
    assert(spec_members(spec, 1) =~= crds::member(
        "bfcfgParameters"@,
        crds::strings_tree(spec.bfcfg_parameters),
    ));
}

proof fn lemma_spec_value_well_formed(spec: DpuFlavorSpecView, n: nat)
    requires
        well_formed(spec),
    ensures
        section_well_formed(spec_value(spec, n)),
{
    lemma_strings_well_formed(spec.bfcfg_parameters);
    if let Some(files) = spec.config_files {
        let items = files.map_values(|file: DpuFlavorConfigFilesView| file.tree());
        assert forall|i: int| 0 <= i < items.len() implies json::well_formed(#[trigger] items[i]) by {
            lemma_file_tree(files[i]);
        }
        lemma_items_well_formed(items);
    }
    if let Some(list) = spec.nvconfig {
        let items = list.map_values(|nvconfig: DpuFlavorNvconfigView| nvconfig.tree());
        assert forall|i: int| 0 <= i < items.len() implies json::well_formed(#[trigger] items[i]) by {
            lemma_nvconfig_tree(list[i]);
        }
        lemma_items_well_formed(items);
    }
    if let Some(ovs) = spec.ovs {
        lemma_ovs_tree(ovs);
    }
}

proof fn lemma_spec_members_well_formed(spec: DpuFlavorSpecView, n: nat)
    requires
        well_formed(spec),
    ensures
        json::well_formed_members(spec_members(spec, n)),
    decreases n,
{
    if n > 0 {
        let m = (n - 1) as nat;
        lemma_spec_members_well_formed(spec, m);
        lemma_spec_value_well_formed(spec, m);
        lemma_append_well_formed(spec_members(spec, m), spec_key(m), spec_value(spec, m));
    }
}

proof fn lemma_spec_members_below(spec: DpuFlavorSpecView, n: nat)
    requires
        n <= 10,
    ensures
        keys_below(spec_members(spec, n), spec_key(n)),
    decreases n,
{
    if n > 0 {
        let m = (n - 1) as nat;
        lemma_spec_members_below(spec, m);
        lemma_spec_keys();
        lemma_extend(spec_members(spec, m), spec_value(spec, m), spec_key(m), spec_key(n));
    }
}

proof fn lemma_spec_members_injective(a: DpuFlavorSpecView, b: DpuFlavorSpecView, n: nat)
    requires
        n <= 11,
        spec_members(a, n) == spec_members(b, n),
    ensures
        forall|i: nat| i < n ==> spec_value(a, i) == #[trigger] spec_value(b, i),
    decreases n,
{
    if n > 0 {
        let m = (n - 1) as nat;
        lemma_spec_members_below(a, m);
        lemma_spec_members_below(b, m);
        lemma_peel(
            spec_members(a, m),
            spec_value(a, m),
            spec_members(b, m),
            spec_value(b, m),
            spec_key(m),
        );
        lemma_spec_members_injective(a, b, m);
    }
}

proof fn lemma_files_injective(a: DpuFlavorSpecView, b: DpuFlavorSpecView)
    requires
        files_tree(a) == files_tree(b),
    ensures
        a.config_files == b.config_files,
{
    if let (Some(p), Some(q)) = (a.config_files, b.config_files) {
        let f = |file: DpuFlavorConfigFilesView| file.tree();
        assert(p.map_values(f) == q.map_values(f));
        assert(p.map_values(f).len() == p.len());
        assert(q.map_values(f).len() == q.len());
        assert forall|i: int| 0 <= i < p.len() implies p[i] == q[i] by {
            assert(p.map_values(f)[i] == p[i].tree());
            assert(q.map_values(f)[i] == q[i].tree());
            lemma_file_tree_injective(p[i], q[i]);
        }
        assert(p =~= q);
    }
}

proof fn lemma_nvconfigs_injective(a: DpuFlavorSpecView, b: DpuFlavorSpecView)
    requires
        nvconfigs_tree(a) == nvconfigs_tree(b),
    ensures
        a.nvconfig == b.nvconfig,
{
    if let (Some(p), Some(q)) = (a.nvconfig, b.nvconfig) {
        let f = |nvconfig: DpuFlavorNvconfigView| nvconfig.tree();
        assert(p.map_values(f) == q.map_values(f));
        assert(p.map_values(f).len() == p.len());
        assert(q.map_values(f).len() == q.len());
        assert forall|i: int| 0 <= i < p.len() implies p[i] == q[i] by {
            assert(p.map_values(f)[i] == p[i].tree());
            assert(q.map_values(f)[i] == q[i].tree());
            lemma_nvconfig_tree_injective(p[i], q[i]);
        }
        assert(p =~= q);
    }
}

/// What is well formed with one more member is so without it, and so is that member's value.
proof fn lemma_prefix_well_formed(
    members: Seq<(Seq<char>, JsonTree)>,
    key: Seq<char>,
    value: Option<JsonTree>,
)
    requires
        json::well_formed_members(members + crds::member(key, value)),
    ensures
        json::well_formed_members(members),
        section_well_formed(value),
    decreases members.len(),
{
    let all = members + crds::member(key, value);
    if members.len() == 0 {
        assert(all =~= crds::member(key, value));
        if value is Some {
            assert(all[0].1 == value->0);
        }
    } else {
        assert(all[0] == members[0]);
        assert(all.skip(1) =~= members.skip(1) + crds::member(key, value));
        lemma_prefix_well_formed(members.skip(1), key, value);
    }
}

proof fn lemma_spec_values_well_formed(spec: DpuFlavorSpecView, n: nat)
    requires
        json::well_formed_members(spec_members(spec, n)),
    ensures
        forall|i: nat| i < n ==> section_well_formed(#[trigger] spec_value(spec, i)),
    decreases n,
{
    if n > 0 {
        let m = (n - 1) as nat;
        lemma_prefix_well_formed(spec_members(spec, m), spec_key(m), spec_value(spec, m));
        lemma_spec_values_well_formed(spec, m);
    }
}

/// The sections of a spec are as well formed as its document.
proof fn lemma_tree_well_formed(spec: DpuFlavorSpecView)
    requires
        json::well_formed(spec.tree()),
    ensures
        well_formed(spec),
{
    lemma_spec_members(spec);
    lemma_spec_values_well_formed(spec, 11);
    assert(section_well_formed(spec_value(spec, 2)));
    assert(section_well_formed(spec_value(spec, 4)));
    assert(section_well_formed(spec_value(spec, 5)));
    assert(section_well_formed(spec_value(spec, 6)));
    assert(section_well_formed(spec_value(spec, 9)));
    assert(section_well_formed(spec_value(spec, 10)));
}

/// Specs that differ are written as documents that differ.
pub proof fn law_document_injective(a: DpuFlavorSpecView, b: DpuFlavorSpecView)
    requires
        well_formed(a),
        well_formed(b),
        json::compact(a.tree()) == json::compact(b.tree()),
    ensures
        a == b,
{
    lemma_spec_members(a);
    lemma_spec_members(b);
    lemma_spec_members_well_formed(a, 11);
    lemma_spec_members_well_formed(b, 11);
    json::law_compact_injective(a.tree(), b.tree());
    assert(a.members() == b.members());
    lemma_spec_members_injective(a, b, 11);
    assert(spec_value(a, 0) == spec_value(b, 0));
    assert(spec_value(a, 1) == spec_value(b, 1));
    assert(spec_value(a, 2) == spec_value(b, 2));
    assert(spec_value(a, 3) == spec_value(b, 3));
    assert(spec_value(a, 4) == spec_value(b, 4));
    assert(spec_value(a, 5) == spec_value(b, 5));
    assert(spec_value(a, 6) == spec_value(b, 6));
    assert(spec_value(a, 7) == spec_value(b, 7));
    assert(spec_value(a, 8) == spec_value(b, 8));
    assert(spec_value(a, 9) == spec_value(b, 9));
    assert(spec_value(a, 10) == spec_value(b, 10));
    lemma_strings_tree_injective(a.bfcfg_parameters, b.bfcfg_parameters);
    lemma_files_injective(a, b);
    lemma_nvconfigs_injective(a, b);
    if let (Some(p), Some(q)) = (a.ovs, b.ovs) {
        lemma_ovs_tree_injective(p, q);
    }
}

/// What the members hold under a key.
pub open spec fn lookup(members: Seq<(Seq<char>, JsonTree)>, key: Seq<char>) -> Option<JsonTree>
    decreases members.len(),
{
    if members.len() == 0 {
        None
    } else if members.last().0 == key {
        Some(members.last().1)
    } else {
        lookup(members.drop_last(), key)
    }
}

proof fn lemma_lookup_below(members: Seq<(Seq<char>, JsonTree)>, key: Seq<char>)
    requires
        keys_below(members, key),
    ensures
        lookup(members, key) is None,
    decreases members.len(),
{
    if members.len() > 0 {
        let front = members.drop_last();
        ordering::lemma_precedes_irreflexive(key);
        assert(ordering::precedes(members[members.len() - 1].0, key));
        assert(keys_below(front, key)) by {
            assert forall|i: int| 0 <= i < front.len() implies ordering::precedes(
                (#[trigger] front[i]).0,
                key,
            ) by {
                assert(front[i] == members[i]);
            }
        }
        lemma_lookup_below(front, key);
    }
}

/// A member that is appended under a later key can be looked up, and hides no other.
proof fn lemma_lookup_appended(
    members: Seq<(Seq<char>, JsonTree)>,
    key: Seq<char>,
    value: Option<JsonTree>,
)
    requires
        json::ascending_keys(members),
        keys_below(members, key),
    ensures
        json::ascending_keys(members + crds::member(key, value)),
        (members + crds::member(key, value)).len() == members.len() + if value is Some {
            1int
        } else {
            0int
        },
        lookup(members + crds::member(key, value), key) == value,
        forall|other: Seq<char>|
            other != key ==> #[trigger] lookup(members + crds::member(key, value), other) == lookup(
                members,
                other,
            ),
{
    let all = members + crds::member(key, value);
    lemma_lookup_below(members, key);
    if value is Some {
        assert(all.last() == (key, value->0));
        assert(all.drop_last() =~= members);
    } else {
        assert(all =~= members);
    }
}

proof fn lemma_spec_keys_ascend(i: nat, j: nat)
    requires
        i < j <= 10,
    ensures
        ordering::precedes(spec_key(i), spec_key(j)),
    decreases j,
{
    lemma_spec_keys();
    let m = (j - 1) as nat;
    assert(ordering::precedes(spec_key(m), spec_key(j)));
    if i < m {
        lemma_spec_keys_ascend(i, m);
        ordering::lemma_precedes_transitive(spec_key(i), spec_key(m), spec_key(j));
    }
}

proof fn lemma_spec_lookup(spec: DpuFlavorSpecView, n: nat)
    requires
        n <= 11,
    ensures
        json::ascending_keys(spec_members(spec, n)),
        forall|k: nat|
            k < n ==> lookup(spec_members(spec, n), #[trigger] spec_key(k)) == spec_value(spec, k),
    decreases n,
{
    if n > 0 {
        let m = (n - 1) as nat;
        lemma_spec_lookup(spec, m);
        lemma_spec_members_below(spec, m);
        lemma_lookup_appended(spec_members(spec, m), spec_key(m), spec_value(spec, m));
        assert forall|k: nat| k < n implies lookup(spec_members(spec, n), #[trigger] spec_key(k))
            == spec_value(spec, k) by {
            if k < m {
                lemma_spec_keys_ascend(k, m);
                ordering::lemma_precedes_irreflexive(spec_key(m));
            }
        }
    }
}

/// The document of a file is an object whose keys ascend and which holds, under its own key, each
/// field that is set, as the string it is, and nothing else.
pub proof fn law_file_document(file: DpuFlavorConfigFilesView) -> (members: Seq<
    (Seq<char>, JsonTree),
>)
    ensures
        file.tree() == JsonTree::Object(members),
        forall|i: int, j: int|
            0 <= i < j < members.len() ==> ordering::precedes(
                (#[trigger] members[i]).0,
                (#[trigger] members[j]).0,
            ),
        members.len() == (if file.operation is Some { 1int } else { 0int })
            + (if file.path is Some { 1int } else { 0int })
            + (if file.permissions is Some { 1int } else { 0int })
            + (if file.raw is Some { 1int } else { 0int }),
        lookup(members, "operation"@) == match file.operation {
            Some(DpuFlavorConfigFilesOperation::Override) => Some(JsonTree::Text("override"@)),
            None => None,
        },
        lookup(members, "path"@) == match file.path {
            Some(s) => Some(JsonTree::Text(s)),
            None => None,
        },
        lookup(members, "permissions"@) == match file.permissions {
            Some(s) => Some(JsonTree::Text(s)),
            None => None,
        },
        lookup(members, "raw"@) == match file.raw {
            Some(s) => Some(JsonTree::Text(s)),
            None => None,
        },
{
    lemma_file_keys();
    reveal_strlit("operation");
    reveal_strlit("path");
    reveal_strlit("permissions");
    reveal_strlit("raw");
    let operation = match file.operation {
        Some(operation) => Some(operation.text()),
        None => None,
    };
    let m0 = Seq::<(Seq<char>, JsonTree)>::empty();
    let m1 = crds::member("operation"@, crds::text_tree(operation));
    let m2 = m1 + crds::member("path"@, crds::text_tree(file.path));
    let m3 = m2 + crds::member("permissions"@, crds::text_tree(file.permissions));
    let m4 = m3 + crds::member("raw"@, crds::text_tree(file.raw));
    assert(m1 =~= m0 + m1);
    lemma_extend(m0, crds::text_tree(operation), "operation"@, "path"@);
    lemma_extend(m1, crds::text_tree(file.path), "path"@, "permissions"@);
    lemma_extend(m2, crds::text_tree(file.permissions), "permissions"@, "raw"@);
    lemma_lookup_appended(m0, "operation"@, crds::text_tree(operation));
    lemma_lookup_appended(m1, "path"@, crds::text_tree(file.path));
    lemma_lookup_appended(m2, "permissions"@, crds::text_tree(file.permissions));
    lemma_lookup_appended(m3, "raw"@, crds::text_tree(file.raw));
    assert("operation"@[0] == 'o' && "path"@[0] == 'p' && "path"@.len() == 4);
    assert("permissions"@[0] == 'p' && "permissions"@.len() == 11 && "raw"@[0] == 'r');
    assert(file.members() == m4);
    m4
}

/// The document of firmware parameters is an object whose keys ascend and which holds the device
/// and the parameters, where they are set, and nothing else. The parameters are an array of
/// strings, in the order of the list.
pub proof fn law_nvconfig_document(nvconfig: DpuFlavorNvconfigView) -> (members: Seq<
    (Seq<char>, JsonTree),
>)
    ensures
        nvconfig.tree() == JsonTree::Object(members),
        forall|i: int, j: int|
            0 <= i < j < members.len() ==> ordering::precedes(
                (#[trigger] members[i]).0,
                (#[trigger] members[j]).0,
            ),
        members.len() == (if nvconfig.device is Some { 1int } else { 0int })
            + (if nvconfig.parameters is Some { 1int } else { 0int }),
        lookup(members, "device"@) == match nvconfig.device {
            Some(DpuFlavorNvconfigDevice::KopiumVariant0) => Some(JsonTree::Text("*"@)),
            None => None,
        },
        match nvconfig.parameters {
            Some(list) => lookup(members, "parameters"@) matches Some(JsonTree::List(items))
                && items.len() == list.len() && forall|i: int|
                0 <= i < list.len() ==> items[i] == JsonTree::Text(#[trigger] list[i]),
            None => lookup(members, "parameters"@) is None,
        },
{
    lemma_nvconfig_keys();
    reveal_strlit("device");
    reveal_strlit("parameters");
    let device = match nvconfig.device {
        Some(device) => Some(device.text()),
        None => None,
    };
    let m0 = Seq::<(Seq<char>, JsonTree)>::empty();
    let m1 = crds::member("device"@, crds::text_tree(device));
    let m2 = m1 + crds::member("parameters"@, crds::strings_tree(nvconfig.parameters));
    assert(m1 =~= m0 + m1);
    lemma_extend(m0, crds::text_tree(device), "device"@, "parameters"@);
    lemma_lookup_appended(m0, "device"@, crds::text_tree(device));
    lemma_lookup_appended(m1, "parameters"@, crds::strings_tree(nvconfig.parameters));
    assert("device"@[0] == 'd' && "parameters"@[0] == 'p');
    assert(nvconfig.members() == m2);
    m2
}

/// The document of the Open vSwitch set-up holds the script, where it is set, and nothing else.
pub proof fn law_ovs_document(ovs: DpuFlavorOvsView)
    ensures
        ovs.tree() == JsonTree::Object(
            match ovs.raw_config_script {
                Some(script) => seq![("rawConfigScript"@, JsonTree::Text(script))],
                None => Seq::empty(),
            },
        ),
{
}

/// The document of a spec is an object whose keys ascend and which holds, under its own key, each
/// field that is set, and nothing else. A list is written as an array of as many items, in the
/// order of the list: a string as it is, a file or firmware parameters as the document it has. A
/// section that is carried as JSON is written as it is.
pub proof fn law_spec_document(spec: DpuFlavorSpecView) -> (members: Seq<(Seq<char>, JsonTree)>)
    ensures
        spec.tree() == JsonTree::Object(members),
        forall|i: int, j: int|
            0 <= i < j < members.len() ==> ordering::precedes(
                (#[trigger] members[i]).0,
                (#[trigger] members[j]).0,
            ),
        members.len() == (if spec.bfcfg_parameters is Some { 1int } else { 0int })
            + (if spec.config_files is Some { 1int } else { 0int })
            + (if spec.containerd_config is Some { 1int } else { 0int })
            + (if spec.dpu_mode is Some { 1int } else { 0int })
            + (if spec.dpu_resources is Some { 1int } else { 0int })
            + (if spec.grub is Some { 1int } else { 0int })
            + (if spec.host_network_interface_configs is Some { 1int } else { 0int })
            + (if spec.nvconfig is Some { 1int } else { 0int })
            + (if spec.ovs is Some { 1int } else { 0int })
            + (if spec.sysctl is Some { 1int } else { 0int })
            + (if spec.system_reserved_resources is Some { 1int } else { 0int }),
        match spec.bfcfg_parameters {
            Some(list) => lookup(members, "bfcfgParameters"@) matches Some(JsonTree::List(items))
                && items.len() == list.len() && forall|i: int|
                0 <= i < list.len() ==> items[i] == JsonTree::Text(#[trigger] list[i]),
            None => lookup(members, "bfcfgParameters"@) is None,
        },
        match spec.config_files {
            Some(files) => lookup(members, "configFiles"@) matches Some(JsonTree::List(items))
                && items.len() == files.len() && forall|i: int|
                0 <= i < files.len() ==> items[i] == (#[trigger] files[i]).tree(),
            None => lookup(members, "configFiles"@) is None,
        },
        lookup(members, "dpuMode"@) == match spec.dpu_mode {
            Some(DpuFlavorDpuMode::ZeroTrust) => Some(JsonTree::Text("zero-trust"@)),
            None => None,
        },
        match spec.nvconfig {
            Some(list) => lookup(members, "nvconfig"@) matches Some(JsonTree::List(items))
                && items.len() == list.len() && forall|i: int|
                0 <= i < list.len() ==> items[i] == (#[trigger] list[i]).tree(),
            None => lookup(members, "nvconfig"@) is None,
        },
        lookup(members, "ovs"@) == match spec.ovs {
            Some(ovs) => Some(ovs.tree()),
            None => None,
        },
        lookup(members, "containerdConfig"@) == spec.containerd_config,
        lookup(members, "dpuResources"@) == spec.dpu_resources,
        lookup(members, "grub"@) == spec.grub,
        lookup(members, "hostNetworkInterfaceConfigs"@) == spec.host_network_interface_configs,
        lookup(members, "sysctl"@) == spec.sysctl,
        lookup(members, "systemReservedResources"@) == spec.system_reserved_resources,
{
    let members = spec_members(spec, 11);
    lemma_spec_members(spec);
    lemma_spec_lookup(spec, 11);
    reveal_with_fuel(spec_members, 12);
    assert(lookup(members, spec_key(0)) == spec_value(spec, 0));
    assert(lookup(members, spec_key(1)) == spec_value(spec, 1));
    assert(lookup(members, spec_key(2)) == spec_value(spec, 2));
    assert(lookup(members, spec_key(3)) == spec_value(spec, 3));
    assert(lookup(members, spec_key(4)) == spec_value(spec, 4));
    assert(lookup(members, spec_key(5)) == spec_value(spec, 5));
    assert(lookup(members, spec_key(6)) == spec_value(spec, 6));
    assert(lookup(members, spec_key(7)) == spec_value(spec, 7));
    assert(lookup(members, spec_key(8)) == spec_value(spec, 8));
    assert(lookup(members, spec_key(9)) == spec_value(spec, 9));
    assert(lookup(members, spec_key(10)) == spec_value(spec, 10));
    members
}

} // verus!

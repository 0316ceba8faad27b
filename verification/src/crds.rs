//! The `DPUFlavor` resource, and the JSON document that its spec stands for.

use crate::json;
use crate::json::JsonTree;
use vstd::prelude::*;

verus! {

/// The metadata that a flavor carries. Metadata that is not listed is left unset.
#[derive(Clone, Debug)]
pub struct ObjectMeta {
    pub name: Option<String>,
    pub namespace: Option<String>,
}

/// How the host may use the DPU.
#[derive(Clone, Copy, Debug, PartialEq, Eq, Structural)]
pub enum DpuFlavorDpuMode {
    /// The host is not trusted with the DPU.
    ZeroTrust,
}

/// What happens to a file that is there already.
#[derive(Clone, Copy, Debug, PartialEq, Eq, Structural)]
pub enum DpuFlavorConfigFilesOperation {
    /// The file is replaced.
    Override,
}

/// The devices that firmware parameters apply to.
#[derive(Clone, Copy, Debug, PartialEq, Eq, Structural)]
pub enum DpuFlavorNvconfigDevice {
    /// Every device: `*`.
    KopiumVariant0,
}

/// A file that is written on the DPU.
#[derive(Clone, Debug)]
pub struct DpuFlavorConfigFiles {
    pub operation: Option<DpuFlavorConfigFilesOperation>,
    pub path: Option<String>,
    pub permissions: Option<String>,
    pub raw: Option<String>,
}

/// Firmware parameters of a device.
#[derive(Clone, Debug)]
pub struct DpuFlavorNvconfig {
    pub device: Option<DpuFlavorNvconfigDevice>,
    pub parameters: Option<Vec<String>>,
}

/// The set-up of Open vSwitch.
#[derive(Clone, Debug)]
pub struct DpuFlavorOvs {
    pub raw_config_script: Option<String>,
}

/// The content of a flavor. A section whose type is `serde_json::Value` is carried as it is.
#[derive(Clone, Debug)]
pub struct DpuFlavorSpec {
    pub bfcfg_parameters: Option<Vec<String>>,
    pub config_files: Option<Vec<DpuFlavorConfigFiles>>,
    pub containerd_config: Option<serde_json::Value>,
    pub dpu_mode: Option<DpuFlavorDpuMode>,
    pub dpu_resources: Option<serde_json::Value>,
    pub grub: Option<serde_json::Value>,
    pub host_network_interface_configs: Option<serde_json::Value>,
    pub nvconfig: Option<Vec<DpuFlavorNvconfig>>,
    pub ovs: Option<DpuFlavorOvs>,
    pub sysctl: Option<serde_json::Value>,
    pub system_reserved_resources: Option<serde_json::Value>,
}

/// A flavor: what a DPU is provisioned with.
#[derive(Clone, Debug)]
pub struct DPUFlavor {
    pub metadata: ObjectMeta,
    pub spec: DpuFlavorSpec,
}

/// What an `ObjectMeta` holds.
pub struct ObjectMetaView {
    pub name: Option<Seq<char>>,
    pub namespace: Option<Seq<char>>,
}

impl DeepView for ObjectMeta {
    type V = ObjectMetaView;

    open spec fn deep_view(&self) -> ObjectMetaView {
        ObjectMetaView { name: self.name.deep_view(), namespace: self.namespace.deep_view() }
    }
}

impl DpuFlavorDpuMode {
    /// The mode's name in a document.
    pub open spec fn text(self) -> Seq<char> {
        "zero-trust"@
    }

    /// The mode's name in a document.
    pub fn as_str(&self) -> (name: &'static str)
        ensures
            name@ == self.text(),
            name@ == "zero-trust"@,
    {
        match self {
            DpuFlavorDpuMode::ZeroTrust => "zero-trust",
        }
    }
}

impl DeepView for DpuFlavorDpuMode {
    type V = DpuFlavorDpuMode;

    open spec fn deep_view(&self) -> DpuFlavorDpuMode {
        *self
    }
}

impl DpuFlavorConfigFilesOperation {
    /// The operation's name in a document.
    pub open spec fn text(self) -> Seq<char> {
        "override"@
    }

    /// The operation's name in a document.
    pub fn as_str(&self) -> (name: &'static str)
        ensures
            name@ == self.text(),
            name@ == "override"@,
    {
        match self {
            DpuFlavorConfigFilesOperation::Override => "override",
        }
    }
}

impl DeepView for DpuFlavorConfigFilesOperation {
    type V = DpuFlavorConfigFilesOperation;

    open spec fn deep_view(&self) -> DpuFlavorConfigFilesOperation {
        *self
    }
}

impl DpuFlavorNvconfigDevice {
    /// The device's name in a document.
    pub open spec fn text(self) -> Seq<char> {
        "*"@
    }

    /// The device's name in a document.
    pub fn as_str(&self) -> (name: &'static str)
        ensures
            name@ == self.text(),
            name@ == "*"@,
    {
        match self {
            DpuFlavorNvconfigDevice::KopiumVariant0 => "*",
        }
    }
}

impl DeepView for DpuFlavorNvconfigDevice {
    type V = DpuFlavorNvconfigDevice;

    open spec fn deep_view(&self) -> DpuFlavorNvconfigDevice {
        *self
    }
}

/// The member of an object that a field is written as: none, where the field is unset.
pub open spec fn member(key: Seq<char>, value: Option<JsonTree>) -> Seq<(Seq<char>, JsonTree)> {
    match value {
        Some(tree) => seq![(key, tree)],
        None => Seq::empty(),
    }
}

/// A string field.
pub open spec fn text_tree(field: Option<Seq<char>>) -> Option<JsonTree> {
    match field {
        Some(s) => Some(JsonTree::Text(s)),
        None => None,
    }
}

/// A list of strings.
pub open spec fn strings_tree(field: Option<Seq<Seq<char>>>) -> Option<JsonTree> {
    match field {
        Some(list) => Some(JsonTree::List(list.map_values(|s: Seq<char>| JsonTree::Text(s)))),
        None => None,
    }
}

/// What a `DpuFlavorConfigFiles` holds.
pub struct DpuFlavorConfigFilesView {
    pub operation: Option<DpuFlavorConfigFilesOperation>,
    pub path: Option<Seq<char>>,
    pub permissions: Option<Seq<char>>,
    pub raw: Option<Seq<char>>,
}

impl DeepView for DpuFlavorConfigFiles {
    type V = DpuFlavorConfigFilesView;

    open spec fn deep_view(&self) -> DpuFlavorConfigFilesView {
        DpuFlavorConfigFilesView {
            operation: self.operation,
            path: self.path.deep_view(),
            permissions: self.permissions.deep_view(),
            raw: self.raw.deep_view(),
        }
    }
}

impl DpuFlavorConfigFilesView {
    /// The members of the file's document.
    pub open spec fn members(self) -> Seq<(Seq<char>, JsonTree)> {
        let operation = match self.operation {
            Some(operation) => Some(operation.text()),
            None => None,
        };
        member("operation"@, text_tree(operation))
            + member("path"@, text_tree(self.path))
            + member("permissions"@, text_tree(self.permissions))
            + member("raw"@, text_tree(self.raw))
    }

    /// The file's document.
    pub open spec fn tree(self) -> JsonTree {
        JsonTree::Object(self.members())
    }
}

/// What a `DpuFlavorNvconfig` holds.
pub struct DpuFlavorNvconfigView {
    pub device: Option<DpuFlavorNvconfigDevice>,
    pub parameters: Option<Seq<Seq<char>>>,
}

impl DeepView for DpuFlavorNvconfig {
    type V = DpuFlavorNvconfigView;

    open spec fn deep_view(&self) -> DpuFlavorNvconfigView {
        DpuFlavorNvconfigView { device: self.device, parameters: self.parameters.deep_view() }
    }
}

impl DpuFlavorNvconfigView {
    /// The members of the document.
    pub open spec fn members(self) -> Seq<(Seq<char>, JsonTree)> {
        let device = match self.device {
            Some(device) => Some(device.text()),
            None => None,
        };
        member("device"@, text_tree(device)) + member("parameters"@, strings_tree(self.parameters))
    }

    /// The document.
    pub open spec fn tree(self) -> JsonTree {
        JsonTree::Object(self.members())
    }
}

/// What a `DpuFlavorOvs` holds.
pub struct DpuFlavorOvsView {
    pub raw_config_script: Option<Seq<char>>,
}

impl DeepView for DpuFlavorOvs {
    type V = DpuFlavorOvsView;

    open spec fn deep_view(&self) -> DpuFlavorOvsView {
        DpuFlavorOvsView { raw_config_script: self.raw_config_script.deep_view() }
    }
}

impl DpuFlavorOvsView {
    /// The members of the document.
    pub open spec fn members(self) -> Seq<(Seq<char>, JsonTree)> {
        member("rawConfigScript"@, text_tree(self.raw_config_script))
    }

    /// The document.
    pub open spec fn tree(self) -> JsonTree {
        JsonTree::Object(self.members())
    }
}

/// What a section that is carried as JSON holds.
pub open spec fn section(value: Option<serde_json::Value>) -> Option<JsonTree> {
    match value {
        Some(value) => Some(json::json_tree(value)),
        None => None,
    }
}

/// What a `DpuFlavorSpec` holds.
pub struct DpuFlavorSpecView {
    pub bfcfg_parameters: Option<Seq<Seq<char>>>,
    pub config_files: Option<Seq<DpuFlavorConfigFilesView>>,
    pub containerd_config: Option<JsonTree>,
    pub dpu_mode: Option<DpuFlavorDpuMode>,
    pub dpu_resources: Option<JsonTree>,
    pub grub: Option<JsonTree>,
    pub host_network_interface_configs: Option<JsonTree>,
    pub nvconfig: Option<Seq<DpuFlavorNvconfigView>>,
    pub ovs: Option<DpuFlavorOvsView>,
    pub sysctl: Option<JsonTree>,
    pub system_reserved_resources: Option<JsonTree>,
}

impl DeepView for DpuFlavorSpec {
    type V = DpuFlavorSpecView;

    open spec fn deep_view(&self) -> DpuFlavorSpecView {
        DpuFlavorSpecView {
            bfcfg_parameters: self.bfcfg_parameters.deep_view(),
            config_files: self.config_files.deep_view(),
            containerd_config: section(self.containerd_config),
            dpu_mode: self.dpu_mode,
            dpu_resources: section(self.dpu_resources),
            grub: section(self.grub),
            host_network_interface_configs: section(self.host_network_interface_configs),
            nvconfig: self.nvconfig.deep_view(),
            ovs: self.ovs.deep_view(),
            sysctl: section(self.sysctl),
            system_reserved_resources: section(self.system_reserved_resources),
        }
    }
}

impl DpuFlavorSpecView {
    /// The members of the spec's document.
    pub open spec fn members(self) -> Seq<(Seq<char>, JsonTree)> {
        let config_files = match self.config_files {
            Some(files) => Some(
                JsonTree::List(files.map_values(|file: DpuFlavorConfigFilesView| file.tree())),
            ),
            None => None,
        };
        let dpu_mode = match self.dpu_mode {
            Some(mode) => Some(mode.text()),
            None => None,
        };
        let nvconfig = match self.nvconfig {
            Some(list) => Some(
                JsonTree::List(list.map_values(|nvconfig: DpuFlavorNvconfigView| nvconfig.tree())),
            ),
            None => None,
        };
        let ovs = match self.ovs {
            Some(ovs) => Some(ovs.tree()),
            None => None,
        };
        member("bfcfgParameters"@, strings_tree(self.bfcfg_parameters))
            + member("configFiles"@, config_files)
            + member("containerdConfig"@, self.containerd_config)
            + member("dpuMode"@, text_tree(dpu_mode))
            + member("dpuResources"@, self.dpu_resources)
            + member("grub"@, self.grub)
            + member("hostNetworkInterfaceConfigs"@, self.host_network_interface_configs)
            + member("nvconfig"@, nvconfig)
            + member("ovs"@, ovs)
            + member("sysctl"@, self.sysctl)
            + member("systemReservedResources"@, self.system_reserved_resources)
    }

    /// The spec's document.
    pub open spec fn tree(self) -> JsonTree {
        JsonTree::Object(self.members())
    }
}

/// What a `DPUFlavor` holds.
pub struct DPUFlavorView {
    pub metadata: ObjectMetaView,
    pub spec: DpuFlavorSpecView,
}

impl DeepView for DPUFlavor {
    type V = DPUFlavorView;

    open spec fn deep_view(&self) -> DPUFlavorView {
        DPUFlavorView { metadata: self.metadata.deep_view(), spec: self.spec.deep_view() }
    }
}

/// What a file holds is each of its fields as it stands.
pub proof fn law_file_view(file: DpuFlavorConfigFiles)
    ensures
        file.deep_view().operation == file.operation,
        match file.path {
            Some(s) => file.deep_view().path == Some(s@),
            None => file.deep_view().path is None,
        },
        match file.permissions {
            Some(s) => file.deep_view().permissions == Some(s@),
            None => file.deep_view().permissions is None,
        },
        match file.raw {
            Some(s) => file.deep_view().raw == Some(s@),
            None => file.deep_view().raw is None,
        },
{
}

/// What firmware parameters hold is each field as it stands, the parameters in their order.
pub proof fn law_nvconfig_view(nvconfig: DpuFlavorNvconfig)
    ensures
        nvconfig.deep_view().device == nvconfig.device,
        match nvconfig.parameters {
            Some(list) => nvconfig.deep_view().parameters matches Some(held) && held.len() == list@.len()
                && forall|i: int| 0 <= i < held.len() ==> #[trigger] held[i] == list@[i]@,
            None => nvconfig.deep_view().parameters is None,
        },
{
}

/// What the Open vSwitch set-up holds is its script as it stands.
pub proof fn law_ovs_view(ovs: DpuFlavorOvs)
    ensures
        match ovs.raw_config_script {
            Some(s) => ovs.deep_view().raw_config_script == Some(s@),
            None => ovs.deep_view().raw_config_script is None,
        },
{
}

/// What a spec holds is each field as it stands, and of a list each item at its place.
pub proof fn law_spec_view(spec: DpuFlavorSpec)
    ensures
        spec.deep_view().dpu_mode == spec.dpu_mode,
        match spec.ovs {
            Some(ovs) => spec.deep_view().ovs == Some(ovs.deep_view()),
            None => spec.deep_view().ovs is None,
        },
        match spec.bfcfg_parameters {
            Some(list) => spec.deep_view().bfcfg_parameters matches Some(held) && held.len() == list@.len()
                && forall|i: int| 0 <= i < held.len() ==> #[trigger] held[i] == list@[i]@,
            None => spec.deep_view().bfcfg_parameters is None,
        },
        match spec.config_files {
            Some(list) => spec.deep_view().config_files matches Some(held) && held.len() == list@.len()
                && forall|i: int| 0 <= i < held.len() ==> #[trigger] held[i] == list@[i].deep_view(),
            None => spec.deep_view().config_files is None,
        },
        match spec.nvconfig {
            Some(list) => spec.deep_view().nvconfig matches Some(held) && held.len() == list@.len()
                && forall|i: int| 0 <= i < held.len() ==> #[trigger] held[i] == list@[i].deep_view(),
            None => spec.deep_view().nvconfig is None,
        },
        match spec.containerd_config {
            Some(value) => spec.deep_view().containerd_config == Some(json::json_tree(value)),
            None => spec.deep_view().containerd_config is None,
        },
        match spec.dpu_resources {
            Some(value) => spec.deep_view().dpu_resources == Some(json::json_tree(value)),
            None => spec.deep_view().dpu_resources is None,
        },
        match spec.grub {
            Some(value) => spec.deep_view().grub == Some(json::json_tree(value)),
            None => spec.deep_view().grub is None,
        },
        match spec.host_network_interface_configs {
            Some(value) => spec.deep_view().host_network_interface_configs == Some(json::json_tree(value)),
            None => spec.deep_view().host_network_interface_configs is None,
        },
        match spec.sysctl {
            Some(value) => spec.deep_view().sysctl == Some(json::json_tree(value)),
            None => spec.deep_view().sysctl is None,
        },
        match spec.system_reserved_resources {
            Some(value) => spec.deep_view().system_reserved_resources == Some(json::json_tree(value)),
            None => spec.deep_view().system_reserved_resources is None,
        },
{
}

/// What a flavor holds is its name and namespace as they stand, and what its spec holds.
pub proof fn law_flavor_view(flavor: DPUFlavor)
    ensures
        flavor.deep_view().spec == flavor.spec.deep_view(),
        match flavor.metadata.name {
            Some(s) => flavor.deep_view().metadata.name == Some(s@),
            None => flavor.deep_view().metadata.name is None,
        },
        match flavor.metadata.namespace {
            Some(s) => flavor.deep_view().metadata.namespace == Some(s@),
            None => flavor.deep_view().metadata.namespace is None,
        },
{
}

} // verus!

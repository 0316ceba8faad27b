//! DPUFlavor configuration for HBN.

use crate::crds::{
    DPUFlavor, DPUFlavorView, DpuFlavorConfigFiles, DpuFlavorConfigFilesOperation,
    DpuFlavorConfigFilesView, DpuFlavorDpuMode, DpuFlavorNvconfig, DpuFlavorNvconfigDevice,
    DpuFlavorNvconfigView, DpuFlavorOvs, DpuFlavorOvsView, DpuFlavorSpec, DpuFlavorSpecView,
    ObjectMeta, ObjectMetaView,
};
use crate::digest;
use crate::digest::{name_from_digest, sha256};
use crate::document;
use crate::error::DpfError;
use crate::json;
use crate::laws;
use crate::proxy;
use crate::proxy::proxy_drop_in;
use crate::text;
use crate::text::to_decimal;
use crate::types::{DpfProxyDetails, DpfProxyDetailsView};
use vstd::prelude::*;
use vstd::string::*;
use vstd::utf8;

verus! {

/// The name that flavors are prefixed with unless another is chosen.
pub const DEFAULT_FLAVOR_NAME: &'static str = "dpu-flavor";

/// The script that sets Open vSwitch up.
pub const OVS_DEFAULTS: &'static str = "_ovs-vsctl() {\n   ovs-vsctl --no-wait --timeout 15 \"$@\"\n }\n\
    _ovs-vsctl set Open_vSwitch . other_config:doca-init=true\n\
    _ovs-vsctl set Open_vSwitch . other_config:dpdk-max-memzones=50000\n\
    _ovs-vsctl set Open_vSwitch . other_config:hw-offload=true\n\
    _ovs-vsctl set Open_vSwitch . other_config:pmd-quiet-idle=true\n\
    _ovs-vsctl set Open_vSwitch . other_config:max-idle=20000\n\
    _ovs-vsctl set Open_vSwitch . other_config:max-revalidator=5000\n\
    _ovs-vsctl set Open_vSwitch . other_config:ctl-pipe-size=1024\n\
    _ovs-vsctl --if-exists del-br ovsbr1\n\
    _ovs-vsctl --if-exists del-br ovsbr2\n\
    _ovs-vsctl --may-exist add-br br-sfc\n\
    _ovs-vsctl set bridge br-sfc datapath_type=netdev\n\
    _ovs-vsctl set bridge br-sfc fail_mode=secure\n\
    _ovs-vsctl --may-exist add-port br-sfc p0\n\
    _ovs-vsctl set Interface p0 type=dpdk\n\
    _ovs-vsctl set Interface p0 mtu_request=9216\n\
    _ovs-vsctl set Port p0 external_ids:dpf-type=physical\n";

/// The supervisor program that loads the access rules.
pub const ACLTOOL_CONF: &'static str = "[program: cl-acltool]\n\
    command = bash -c \"sleep 5 && /usr/cumulus/bin/cl-acltool -i\"\n\
    startsecs = 0\n\
    autorestart = false\n\
    priority = 200\n";

/// The settings of the BlueField driver.
pub const MLNX_BF_CONF: &'static str = "ALLOW_SHARED_RQ=\"no\"\n\
    IPSEC_FULL_OFFLOAD=\"no\"\n\
    ENABLE_ESWITCH_MULTIPORT=\"yes\"\n";

/// The settings of the driver's Open vSwitch support.
pub const MLNX_OVS_CONF: &'static str = "CREATE_OVS_BRIDGES=\"no\"\nOVS_DOCA=\"yes\"\n";

/// The script that sets Open vSwitch up.
pub fn get_default_ovs_defaults() -> (script: String)
    ensures
        script@ == OVS_DEFAULTS@,
{
    OVS_DEFAULTS.to_owned()
}

/// The parameters with which the DPU's software is installed.
pub open spec fn default_bfcfg_parameters() -> Seq<Seq<char>> {
    seq!["UPDATE_ATF_UEFI=yes"@, "UPDATE_DPU_OS=yes"@, "WITH_NIC_FW_UPDATE=yes"@]
}

/// The default firmware parameters.
pub open spec fn default_nvconfig() -> DpuFlavorNvconfigView {
    DpuFlavorNvconfigView {
        device: Some(DpuFlavorNvconfigDevice::KopiumVariant0),
        parameters: Some(
            seq![
                "PF_BAR2_ENABLE=0"@,
                "PER_PF_NUM_SF=1"@,
                "PF_TOTAL_SF=30"@,
                "PF_SF_BAR_SIZE=10"@,
                "NUM_PF_MSIX_VALID=0"@,
                "PF_NUM_PF_MSIX_VALID=1"@,
                "PF_NUM_PF_MSIX=228"@,
                "INTERNAL_CPU_MODEL=1"@,
                "INTERNAL_CPU_OFFLOAD_ENGINE=0"@,
                "SRIOV_EN=1"@,
                "LAG_RESOURCE_ALLOCATION=1"@,
                "NUM_OF_VFS=16"@,
                "HIDE_PORT2_PF=True"@,
                "NUM_OF_PF=1"@,
                "LINK_TYPE_P1=2"@,
                "LINK_TYPE_P2=2"@,
            ],
        ),
    }
}

/// The default firmware parameters, for every device.
pub fn get_default_nvconfig() -> (nvconfig: DpuFlavorNvconfig)
    ensures
        nvconfig.deep_view() == default_nvconfig(),
{
    let parameters: Vec<String> = vec![
        "PF_BAR2_ENABLE=0".to_owned(),
        "PER_PF_NUM_SF=1".to_owned(),
        "PF_TOTAL_SF=30".to_owned(),
        "PF_SF_BAR_SIZE=10".to_owned(),
        "NUM_PF_MSIX_VALID=0".to_owned(),
        "PF_NUM_PF_MSIX_VALID=1".to_owned(),
        "PF_NUM_PF_MSIX=228".to_owned(),
        "INTERNAL_CPU_MODEL=1".to_owned(),
        "INTERNAL_CPU_OFFLOAD_ENGINE=0".to_owned(),
        "SRIOV_EN=1".to_owned(),
        "LAG_RESOURCE_ALLOCATION=1".to_owned(),
        "NUM_OF_VFS=16".to_owned(),
        "HIDE_PORT2_PF=True".to_owned(),
        "NUM_OF_PF=1".to_owned(),
        "LINK_TYPE_P1=2".to_owned(),
        "LINK_TYPE_P2=2".to_owned(),
    ];
    assert(parameters.deep_view() =~= default_nvconfig().parameters->0);
    DpuFlavorNvconfig {
        // DPF takes no wild card other than '*'.
        device: Some(DpuFlavorNvconfigDevice::KopiumVariant0),
        parameters: Some(parameters),
    }
}

/// The host-facing interfaces: the physical function, then the virtual functions.
pub open spec fn host_interface(n: int) -> Seq<char> {
    if n == 0 {
        "pf0hpf_if"@
    } else {
        "pf0vf"@ + text::decimal((n - 1) as nat) + "_if"@
    }
}

/// How many host-facing interfaces there are.
pub const HOST_INTERFACES: u32 = 17;

/// The rule that drops the DHCP broadcasts of an interface.
pub open spec fn acl_rule(interface: Seq<char>) -> Seq<char> {
    "-t filter -A FORWARD -p udp -d 255.255.255.255 --dport 67 -m physdev --physdev-in "@
        + interface + " -m comment --comment 'offload:0' -j DROP\n"@
}

/// The rules for the first `n` interfaces, below their heading.
pub open spec fn acl_rules(n: nat) -> Seq<char>
    decreases n,
{
    if n == 0 {
        "[iptables]\n"@
    } else {
        acl_rules((n - 1) as nat) + acl_rule(host_interface(n - 1))
    }
}

/// DHCP ACL rules: drop DHCP broadcasts from host-facing interfaces.
pub fn dhcp_acl_rules() -> (rules: String)
    ensures
        rules@ == acl_rules(HOST_INTERFACES as nat),
{
    let mut rules: String = "[iptables]\n".to_owned();
    let mut n: u32 = 0;
    while n < HOST_INTERFACES
        invariant
            n <= HOST_INTERFACES,
            rules@ == acl_rules(n as nat),
        decreases HOST_INTERFACES - n,
    {
        let mut interface: String = String::new();
        if n == 0 {
            interface.append("pf0hpf_if");
        } else {
            interface.append("pf0vf");
            interface.append(to_decimal(n - 1).as_str());
            interface.append("_if");
        }
        assert(interface@ =~= host_interface(n as int));
        let ghost before = rules@;
        rules.append(
            "-t filter -A FORWARD -p udp -d 255.255.255.255 --dport 67 -m physdev --physdev-in ",
        );
        rules.append(interface.as_str());
        rules.append(" -m comment --comment 'offload:0' -j DROP\n");
        assert(rules@ =~= before + acl_rule(interface@));
        n = n + 1;
    }
    rules
}

/// A file that replaces what is there and that its owner may write and all may read.
pub open spec fn config_file(path: Seq<char>, raw: Seq<char>) -> DpuFlavorConfigFilesView {
    DpuFlavorConfigFilesView {
        operation: Some(DpuFlavorConfigFilesOperation::Override),
        path: Some(path),
        permissions: Some("0644"@),
        raw: Some(raw),
    }
}

fn make_config_file(path: &str, raw: String) -> (file: DpuFlavorConfigFiles)
    ensures
        file.deep_view() == config_file(path@, raw@),
{
    DpuFlavorConfigFiles {
        operation: Some(DpuFlavorConfigFilesOperation::Override),
        path: Some(path.to_owned()),
        permissions: Some("0644".to_owned()),
        raw: Some(raw),
    }
}

/// The files that every flavor has.
pub open spec fn base_config_files() -> Seq<DpuFlavorConfigFilesView> {
    seq![
        config_file("/var/lib/hbn/etc/supervisor/conf.d/acltool.conf"@, ACLTOOL_CONF@),
        config_file(
            "/var/lib/hbn/etc/cumulus/acl/policy.d/10-dhcp.rules"@,
            acl_rules(HOST_INTERFACES as nat),
        ),
        config_file("/etc/mellanox/mlnx-bf.conf"@, MLNX_BF_CONF@),
        config_file("/etc/mellanox/mlnx-ovs.conf"@, MLNX_OVS_CONF@),
        config_file("/etc/mellanox/mlnx-sf.conf"@, Seq::empty()),
    ]
}

/// The files of a flavor: those that every flavor has, and the drop-in of the proxy.
pub open spec fn config_files(proxy: Option<DpfProxyDetailsView>) -> Seq<DpuFlavorConfigFilesView> {
    match proxy {
        Some(proxy) => base_config_files().push(
            config_file(
                "/etc/systemd/system/containerd.service.d/socks-proxy.conf"@,
                proxy::drop_in(proxy),
            ),
        ),
        None => base_config_files(),
    }
}

/// The message with which the proxy, if there is one, is refused.
pub open spec fn refusal(proxy: Option<DpfProxyDetailsView>) -> Option<Seq<char>> {
    match proxy {
        Some(proxy) => proxy::refusal(proxy),
        None => None,
    }
}

/// Returns the base set of config files, plus an optional containerd proxy drop-in if `proxy` is set.
pub fn get_config_files(proxy: &Option<DpfProxyDetails>) -> (result: Result<
    Vec<DpuFlavorConfigFiles>,
    DpfError,
>)
    ensures
        match refusal(proxy.deep_view()) {
            Some(message) => result matches Err(error) && error.is_config_error(message),
            None => result matches Ok(files) && files.deep_view() == config_files(proxy.deep_view()),
        },
        match proxy {
            None => result is Ok,
            Some(p) => result is Err <==> {
                ||| exists|i: int|
                    {
                        &&& 0 <= i < p.https_proxy@.len()
                        &&& {
                            let c = #[trigger] p.https_proxy@[i];
                            c == '"' || (c as int) <= 0x1f || c as int == 0x7f
                        }
                    }
                ||| exists|k: int, i: int|
                    {
                        &&& 0 <= k < p.no_proxy@.len()
                        &&& 0 <= i < text::trimmed(p.no_proxy@[k]@).len()
                        &&& {
                            let c = #[trigger] text::trimmed(p.no_proxy@[k]@)[i];
                            c == '"' || (c as int) <= 0x1f || c as int == 0x7f
                        }
                    }
            },
        },
        result matches Ok(files) ==> {
            &&& files@.len() == if proxy is Some { 6int } else { 5int }
            &&& files@[0].path matches Some(path) && path@
                == "/var/lib/hbn/etc/supervisor/conf.d/acltool.conf"@
            &&& files@[0].raw matches Some(raw) && raw@ == "[program: cl-acltool]\n\
            command = bash -c \"sleep 5 && /usr/cumulus/bin/cl-acltool -i\"\n\
            startsecs = 0\n\
            autorestart = false\n\
            priority = 200\n"@
            &&& files@[1].path matches Some(path) && path@
                == "/var/lib/hbn/etc/cumulus/acl/policy.d/10-dhcp.rules"@
            &&& files@[1].raw matches Some(raw) && raw@ == acl_rules(17)
            &&& files@[2].path matches Some(path) && path@
                == "/etc/mellanox/mlnx-bf.conf"@
            &&& files@[2].raw matches Some(raw) && raw@ == "ALLOW_SHARED_RQ=\"no\"\n\
            IPSEC_FULL_OFFLOAD=\"no\"\n\
            ENABLE_ESWITCH_MULTIPORT=\"yes\"\n"@
            &&& files@[3].path matches Some(path) && path@
                == "/etc/mellanox/mlnx-ovs.conf"@
            &&& files@[3].raw matches Some(raw) && raw@ == "CREATE_OVS_BRIDGES=\"no\"\nOVS_DOCA=\"yes\"\n"@
            &&& files@[4].path matches Some(path) && path@
                == "/etc/mellanox/mlnx-sf.conf"@
            &&& files@[4].raw matches Some(raw) && raw@ == ""@
            &&& proxy is Some ==> (files@[5].path matches Some(path) && path@
                == "/etc/systemd/system/containerd.service.d/socks-proxy.conf"@)
        },
{
    let mut files: Vec<DpuFlavorConfigFiles> = vec![
        make_config_file(
            "/var/lib/hbn/etc/supervisor/conf.d/acltool.conf",
            ACLTOOL_CONF.to_owned(),
        ),
        make_config_file(
            "/var/lib/hbn/etc/cumulus/acl/policy.d/10-dhcp.rules",
            dhcp_acl_rules(),
        ),
        make_config_file("/etc/mellanox/mlnx-bf.conf", MLNX_BF_CONF.to_owned()),
        make_config_file("/etc/mellanox/mlnx-ovs.conf", MLNX_OVS_CONF.to_owned()),
        make_config_file("/etc/mellanox/mlnx-sf.conf", String::new()),
    ];
    assert(files.deep_view() =~= base_config_files());
    if let Some(proxy) = proxy {
        match proxy_drop_in(proxy) {
            Ok(raw) => {
                files.push(
                    make_config_file(
                        "/etc/systemd/system/containerd.service.d/socks-proxy.conf",
                        raw,
                    ),
                );
            },
            Err(error) => {
                return Err(error);
            },
        }
    }
    assert(files.deep_view() =~= config_files(proxy.deep_view()));
    proof {
        reveal_strlit("");
        laws::law_config_files(proxy.deep_view());
        assert forall|i: int| 0 <= i < files@.len() implies (#[trigger] files@[i]).deep_view()
            == config_files(proxy.deep_view())[i] by {
            assert(files.deep_view()[i] == files@[i].deep_view());
        }
    }
    Ok(files)
}

/// The default flavor's spec.
pub open spec fn default_spec(proxy: Option<DpfProxyDetailsView>) -> DpuFlavorSpecView {
    DpuFlavorSpecView {
        bfcfg_parameters: Some(default_bfcfg_parameters()),
        config_files: Some(config_files(proxy)),
        containerd_config: None,
        dpu_mode: Some(DpuFlavorDpuMode::ZeroTrust),
        dpu_resources: None,
        grub: None,
        host_network_interface_configs: None,
        nvconfig: Some(seq![default_nvconfig()]),
        ovs: Some(DpuFlavorOvsView { raw_config_script: Some(OVS_DEFAULTS@) }),
        sysctl: None,
        system_reserved_resources: None,
    }
}

/// Build the default DPUFlavor spec. If `proxy` is set, a containerd proxy drop-in config file
/// is appended so the DPU can pull images through the proxy.
///
/// Returns `ConfigError` if any proxy string contains characters that would break the generated
/// systemd `Environment="..."` lines (quotes, newlines, or other control characters).
///
/// `metadata.name` is left unset; callers must set it (typically via [`DPUFlavor::unique_name`])
/// before creating the resource in the cluster.
pub fn default_flavor(namespace: &str, proxy: &Option<DpfProxyDetails>) -> (result: Result<
    DPUFlavor,
    DpfError,
>)
    ensures
        match refusal(proxy.deep_view()) {
            Some(message) => result matches Err(error) && error.is_config_error(message),
            None => result matches Ok(flavor) && flavor.deep_view() == (DPUFlavorView {
                metadata: ObjectMetaView { name: None, namespace: Some(namespace@) },
                spec: default_spec(proxy.deep_view()),
            }),
        },
        match proxy {
            None => result is Ok,
            Some(p) => result is Err <==> {
                ||| exists|i: int|
                    {
                        &&& 0 <= i < p.https_proxy@.len()
                        &&& {
                            let c = #[trigger] p.https_proxy@[i];
                            c == '"' || (c as int) <= 0x1f || c as int == 0x7f
                        }
                    }
                ||| exists|k: int, i: int|
                    {
                        &&& 0 <= k < p.no_proxy@.len()
                        &&& 0 <= i < text::trimmed(p.no_proxy@[k]@).len()
                        &&& {
                            let c = #[trigger] text::trimmed(p.no_proxy@[k]@)[i];
                            c == '"' || (c as int) <= 0x1f || c as int == 0x7f
                        }
                    }
            },
        },
        result matches Ok(flavor) ==> {
            &&& flavor.metadata.name is None
            &&& flavor.metadata.namespace matches Some(held) && held@ == namespace@
            &&& flavor.spec.ovs matches Some(ovs) && ovs.raw_config_script matches Some(script)
                && script@ == OVS_DEFAULTS@
            &&& flavor.spec.nvconfig matches Some(list) && list@.len() == 1 && list@[0].device
                == Some(DpuFlavorNvconfigDevice::KopiumVariant0)
                && list@[0].parameters.deep_view() == default_nvconfig().parameters
            &&& flavor.spec.config_files matches Some(files) && files.deep_view() == config_files(
                proxy.deep_view(),
            )
        },
{
    let bfcfg_parameters: Vec<String> = vec![
        "UPDATE_ATF_UEFI=yes".to_owned(),
        "UPDATE_DPU_OS=yes".to_owned(),
        "WITH_NIC_FW_UPDATE=yes".to_owned(),
    ];
    assert(bfcfg_parameters.deep_view() =~= default_bfcfg_parameters());
    let config_files: Vec<DpuFlavorConfigFiles> = match get_config_files(proxy) {
        Ok(files) => files,
        Err(error) => {
            return Err(error);
        },
    };
    let nvconfig: Vec<DpuFlavorNvconfig> = vec![get_default_nvconfig()];
    assert(nvconfig.deep_view() =~= seq![default_nvconfig()]);
    Ok(
        DPUFlavor {
            metadata: ObjectMeta { name: None, namespace: Some(namespace.to_owned()) },
            spec: DpuFlavorSpec {
                bfcfg_parameters: Some(bfcfg_parameters),
                config_files: Some(config_files),
                containerd_config: None,
                dpu_mode: Some(DpuFlavorDpuMode::ZeroTrust),
                dpu_resources: None,
                grub: None,
                host_network_interface_configs: None,
                nvconfig: Some(nvconfig),
                ovs: Some(DpuFlavorOvs { raw_config_script: Some(get_default_ovs_defaults()) }),
                sysctl: None,
                system_reserved_resources: None,
            },
        },
    )
}

/// The bytes of a spec's JSON document.
pub open spec fn spec_bytes(spec: DpuFlavorSpecView) -> Seq<u8> {
    utf8::encode_utf8(json::compact(spec.tree()))
}

/// The name of a flavor with this spec.
pub open spec fn flavor_name(spec: DpuFlavorSpecView, default_flavor_name: Seq<char>) -> Seq<char> {
    digest::digest_name(default_flavor_name, digest::sha256_digest(spec_bytes(spec)))
}

impl DPUFlavor {
    /// Returns `"{default_flavor_name}-{hash}"` where the hash is the first 8 bytes (16 hex chars)
    /// of a stable SHA-256 digest of the spec. The name changes whenever the spec changes, which
    /// causes outdated DPUs to be reprovisioned by MachineUpdateManager. Writing the spec as JSON
    /// does not fail, so there is always a name.
    pub fn unique_name(&self, default_flavor_name: &str) -> (name: Result<String, DpfError>)
        ensures
            name is Ok,
            name->Ok_0@ == flavor_name(self.deep_view().spec, default_flavor_name@),
            digest::has_name_format(name->Ok_0@, default_flavor_name@),
            document::well_formed(self.deep_view().spec),
            digest::sha256_digest(
                utf8::encode_utf8(json::compact(self.spec.deep_view().tree())),
            ).len() == 32,
            name->Ok_0@.len() == default_flavor_name@.len() + 17,
            name->Ok_0@.subrange(0, default_flavor_name@.len() as int) == default_flavor_name@,
            name->Ok_0@[default_flavor_name@.len() as int] == '-',
            forall|k: int|
                0 <= k < 8 ==> {
                    let byte = #[trigger] digest::sha256_digest(
                        utf8::encode_utf8(json::compact(self.spec.deep_view().tree())),
                    )[k];
                    &&& name->Ok_0@[default_flavor_name@.len() + 1 + 2 * k]
                        == "0123456789abcdef"@[byte as int / 16]
                    &&& name->Ok_0@[default_flavor_name@.len() + 2 + 2 * k]
                        == "0123456789abcdef"@[byte as int % 16]
                },
    {
        let json: String = match self.spec.to_json() {
            Ok(json) => json,
            Err(error) => {
                return Err(error);
            },
        };
        let digest: Vec<u8> = sha256(json.as_str().as_bytes());
        proof {
            laws::law_flavor_name(self.deep_view().spec, default_flavor_name@);
        }
        Ok(name_from_digest(default_flavor_name, digest.as_slice()))
    }
}

} // verus!

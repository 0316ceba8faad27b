use dpf::crds::{DpuFlavorConfigFilesOperation, DpuFlavorDpuMode, DpuFlavorNvconfigDevice};
use dpf::error::DpfError;
use dpf::flavor::{
    DEFAULT_FLAVOR_NAME, default_flavor, dhcp_acl_rules, get_config_files, get_default_nvconfig,
    get_default_ovs_defaults,
};
use dpf::proxy::validate_proxy_string;
use dpf::types::DpfProxyDetails;

fn proxy(https_proxy: &str, no_proxy: &[&str]) -> Option<DpfProxyDetails> {
    Some(DpfProxyDetails {
        https_proxy: https_proxy.to_string(),
        no_proxy: no_proxy.iter().map(|s| s.to_string()).collect(),
    })
}

/// The `raw` body of the trailing (proxy) config file built by `default_flavor`.
fn proxy_file_raw(https_proxy: &str, no_proxy: &[&str]) -> String {
    let flavor = default_flavor("ns", &proxy(https_proxy, no_proxy)).unwrap();
    let files = flavor.spec.config_files.unwrap();
    files.last().unwrap().raw.clone().unwrap()
}

/// `unique_name` of the default flavor for the given proxy, with the standard prefix.
fn name_for(proxy: &Option<DpfProxyDetails>) -> String {
    default_flavor("ns", proxy)
        .unwrap()
        .unique_name("dpu-flavor")
        .unwrap()
}

#[test]
fn validate_proxy_string_accepts_and_rejects() {
    let cases = [
        ("typical proxy url", "http://proxy.corp.example.com:3128", true),
        ("empty string", "", true),
        ("cidr no_proxy entry", "10.0.0.0/8", true),
        ("hostname no_proxy entry", "localhost", true),
        ("dns suffix no_proxy entry", ".svc.cluster.local", true),
        ("high ascii printable is allowed", "host~name", true),
        ("space is allowed (>= 0x20, not quote/control)", "has space", true),
        ("tilde 0x7e is the last printable allowed", "~", true),
        ("double quote rejected", "http://proxy:3128/\"evil", false),
        ("newline rejected", "http://proxy:3128\nEvil: injected", false),
        ("carriage return rejected", "http://proxy:3128\rinjected", false),
        ("tab (control char) rejected", "http://proxy:3128\tx", false),
        ("null byte rejected", "10.0.0.0/8\x00bad", false),
        ("0x01 control char rejected", "10.0.0.0/8\x01bad", false),
        ("0x1f (last control below 0x20) rejected", "x\x1fy", false),
        ("DEL 0x7f rejected", "x\x7fy", false),
    ];
    for (scenario, input, accepted) in cases {
        assert_eq!(validate_proxy_string(input, "field").is_ok(), accepted, "{scenario}");
    }
}

#[test]
fn validate_proxy_string_error_names_the_field() {
    // The rejected-string error message mentions the field name passed in.
    let cases = [
        ("field name appears in the error", "\"", "https_proxy", &["https_proxy", "systemd"][..]),
        (
            "no_proxy field name appears in the error",
            "\n",
            "no_proxy entry",
            &["no_proxy entry"][..],
        ),
    ];
    for (scenario, value, field, tokens) in cases {
        let msg = match validate_proxy_string(value, field) {
            Err(DpfError::ConfigError(m)) => m,
            other => panic!("{scenario}: expected ConfigError, got {other:?}"),
        };
        assert!(tokens.iter().all(|t| msg.contains(t)), "{scenario}");
    }
}

#[test]
fn default_flavor_accepts_or_rejects_proxy() {
    let cases = [
        ("no proxy", None, true),
        (
            "typical proxy with no_proxy list",
            proxy(
                "http://proxy.corp.example.com:3128",
                &["10.0.0.0/8", "localhost", ".svc.cluster.local"],
            ),
            true,
        ),
        ("proxy with empty no_proxy", proxy("http://proxy:3128", &[]), true),
        ("https_proxy with quote rejected", proxy("http://proxy:3128/\"evil", &[]), false),
        (
            "https_proxy with newline rejected",
            proxy("http://proxy:3128\nEvil: injected", &[]),
            false,
        ),
        ("https_proxy with carriage return rejected", proxy("http://proxy:3128\rx", &[]), false),
        (
            "no_proxy entry with control char rejected",
            proxy("http://proxy:3128", &["10.0.0.0/8\x01bad"]),
            false,
        ),
        (
            "no_proxy entry with DEL rejected",
            proxy("http://proxy:3128", &["ok", "bad\x7f"]),
            false,
        ),
        (
            "blank/whitespace-only no_proxy entries are skipped, not rejected",
            proxy("http://proxy:3128", &["", "  ", "\t"]),
            true,
        ),
    ];
    for (scenario, input, accepted) in cases {
        assert_eq!(default_flavor("ns", &input).is_ok(), accepted, "{scenario}");
    }
}

#[test]
fn default_flavor_namespace_is_passed_through() {
    let cases = [
        ("plain namespace", "my-ns", Some("my-ns".to_string())),
        ("empty namespace is still set verbatim", "", Some(String::new())),
        ("namespace with hyphens", "dpf-system-test", Some("dpf-system-test".to_string())),
    ];
    for (scenario, ns, expected) in cases {
        let namespace = default_flavor(ns, &None).unwrap().metadata.namespace;
        assert_eq!(namespace, expected, "{scenario}");
    }
}

#[test]
fn default_flavor_metadata_name_is_always_none() {
    // The caller must set the name via unique_name(); the builder leaves it unset.
    let cases = [
        ("no proxy", None),
        ("with proxy", proxy("http://proxy:3128", &["localhost"])),
    ];
    for (scenario, p) in cases {
        assert!(default_flavor("ns", &p).unwrap().metadata.name.is_none(), "{scenario}");
    }
}

#[test]
fn default_flavor_spec_invariants() {
    // Structural shape of the default spec that callers depend on.
    let flavor = default_flavor("ns", &None).unwrap();
    assert!(
        matches!(flavor.spec.dpu_mode, Some(DpuFlavorDpuMode::ZeroTrust)),
        "dpu_mode is ZeroTrust"
    );
    assert!(
        flavor.spec.bfcfg_parameters.as_ref().map(|v| v.len()) == Some(3),
        "bfcfg has three parameters"
    );
    assert!(
        flavor.spec.nvconfig.as_ref().map(|v| v.len()) == Some(1),
        "exactly one nvconfig entry"
    );
    assert!(
        flavor.spec.ovs.as_ref().and_then(|o| o.raw_config_script.as_ref()).is_some(),
        "ovs raw config script is present"
    );
    assert!(flavor.spec.dpu_resources.is_none(), "dpu_resources unset");
    assert!(flavor.spec.containerd_config.is_none(), "containerd_config unset");
}

#[test]
fn config_file_count_depends_on_proxy() {
    let cases = [
        ("no proxy yields five base files", None, 5),
        ("proxy with empty no_proxy appends a sixth", proxy("http://proxy:3128", &[]), 6),
        (
            "proxy with no_proxy list still appends exactly one",
            proxy("http://proxy:3128", &["10.0.0.0/8", "localhost"]),
            6,
        ),
    ];
    for (scenario, p, count) in cases {
        let files = default_flavor("ns", &p).unwrap().spec.config_files.unwrap();
        assert_eq!(files.len(), count, "{scenario}");
    }
}

#[test]
fn proxy_file_fields_are_fixed() {
    // path, permissions, operation of the trailing proxy drop-in.
    let flavor = default_flavor("ns", &proxy("http://proxy:3128", &[])).unwrap();
    let files = flavor.spec.config_files.unwrap();
    let f = files.last().unwrap();
    assert!(
        f.path.is_some()
            && f.path.as_deref()
                == Some("/etc/systemd/system/containerd.service.d/socks-proxy.conf"),
        "path"
    );
    assert!(f.permissions.as_deref() == Some("0644"), "permissions 0644");
    assert!(
        matches!(f.operation, Some(DpuFlavorConfigFilesOperation::Override)),
        "override operation"
    );
}

#[test]
fn base_config_file_paths_are_present() {
    // The five base files always exist regardless of proxy, with these paths.
    let files = default_flavor("ns", &None).unwrap().spec.config_files.unwrap();
    let paths: Vec<&str> = files.iter().filter_map(|f| f.path.as_deref()).collect();
    let cases = [
        ("acltool.conf", "/var/lib/hbn/etc/supervisor/conf.d/acltool.conf"),
        ("10-dhcp.rules", "/var/lib/hbn/etc/cumulus/acl/policy.d/10-dhcp.rules"),
        ("mlnx-bf.conf", "/etc/mellanox/mlnx-bf.conf"),
        ("mlnx-ovs.conf", "/etc/mellanox/mlnx-ovs.conf"),
        ("mlnx-sf.conf", "/etc/mellanox/mlnx-sf.conf"),
    ];
    for (scenario, path) in cases {
        assert!(paths.contains(&path), "{scenario}");
    }
}

#[test]
fn proxy_raw_contains_expected_tokens() {
    // Uppercase and lowercase HTTPS_PROXY env set under [Service].
    let raw = proxy_file_raw("http://proxy.example.com:3128", &[]);
    let tokens = [
        "[Service]",
        "HTTPS_PROXY=http://proxy.example.com:3128",
        "https_proxy=http://proxy.example.com:3128",
    ];
    assert!(tokens.iter().all(|t| raw.contains(t)));
}

#[test]
fn proxy_raw_no_proxy_handling() {
    // When no_proxy is empty the NO_PROXY env lines are omitted; when set they
    // appear sorted+deduped. Each row: (raw body, tokens that must all appear).
    let cases = [
        (
            "no_proxy lines present, sorted and deduped",
            proxy_file_raw("http://proxy:3128", &["localhost", "10.0.0.0/8", "10.0.0.0/8"]),
            &["NO_PROXY=10.0.0.0/8,localhost", "no_proxy=10.0.0.0/8,localhost"][..],
        ),
        (
            "single no_proxy entry",
            proxy_file_raw("http://proxy:3128", &["10.0.0.0/8"]),
            &["NO_PROXY=10.0.0.0/8", "no_proxy=10.0.0.0/8"][..],
        ),
        (
            "whitespace around entries is trimmed",
            proxy_file_raw("http://proxy:3128", &["  localhost  ", " 10.0.0.0/8 "]),
            &["NO_PROXY=10.0.0.0/8,localhost"][..],
        ),
    ];
    for (scenario, raw, tokens) in cases {
        assert!(tokens.iter().all(|t| raw.contains(t)), "{scenario}");
    }
}

#[test]
fn proxy_raw_omits_no_proxy_when_effectively_empty() {
    // Empty or blank-only no_proxy lists produce no NO_PROXY env lines at all.
    let cases = [
        ("empty list", proxy_file_raw("http://proxy:3128", &[])),
        (
            "blank and whitespace-only entries are filtered out",
            proxy_file_raw("http://proxy:3128", &["", "   ", "\t"]),
        ),
    ];
    for (scenario, raw) in cases {
        assert!(!(raw.contains("NO_PROXY") || raw.contains("no_proxy")), "{scenario}");
    }
}

#[test]
fn unique_name_has_expected_format() {
    // "<prefix>-<16 lowercase hex chars>" for several prefixes.
    let cases = [
        ("standard prefix", "dpu-flavor"),
        ("empty prefix still yields prefix-<hash>", ""),
        ("prefix containing hyphens", "a-b-c"),
    ];
    for (scenario, prefix) in cases {
        let flavor = default_flavor("ns", &None).unwrap();
        let name = flavor.unique_name(prefix).unwrap();
        let (got_prefix, hash) = name.rsplit_once('-').unwrap();
        assert!(
            got_prefix == prefix
                && hash.len() == 16
                && hash.chars().all(|c| c.is_ascii_hexdigit() && !c.is_uppercase()),
            "{scenario}"
        );
    }
}

#[test]
fn unique_name_equality_across_specs() {
    // true  => the two specs hash to the same name (stable / order- & dup-insensitive)
    // false => the specs differ, so the names must differ
    let cases = [
        ("deterministic for identical specs", name_for(&None), name_for(&None), true),
        (
            "no_proxy order does not affect the name",
            name_for(&proxy("http://proxy:3128", &["localhost", "10.0.0.0/8"])),
            name_for(&proxy("http://proxy:3128", &["10.0.0.0/8", "localhost"])),
            true,
        ),
        (
            "duplicate no_proxy entries do not affect the name",
            name_for(&proxy("http://proxy:3128", &["10.0.0.0/8"])),
            name_for(&proxy("http://proxy:3128", &["10.0.0.0/8", "10.0.0.0/8"])),
            true,
        ),
        (
            "adding a proxy changes the name",
            name_for(&None),
            name_for(&proxy("http://proxy:3128", &[])),
            false,
        ),
        (
            "extending the no_proxy list changes the name",
            name_for(&proxy("http://proxy:3128", &["10.0.0.0/8"])),
            name_for(&proxy("http://proxy:3128", &["10.0.0.0/8", "localhost"])),
            false,
        ),
        (
            "changing the https_proxy url changes the name",
            name_for(&proxy("http://a:3128", &[])),
            name_for(&proxy("http://b:3128", &[])),
            false,
        ),
    ];
    for (scenario, a, b, equal) in cases {
        assert_eq!(a == b, equal, "{scenario}");
    }
}

#[test]
fn unique_name_prefix_changes_the_output() {
    // The same spec under different prefixes yields different names.
    let flavor = default_flavor("ns", &None).unwrap();
    assert!(
        flavor.unique_name("a").unwrap() != flavor.unique_name("b").unwrap(),
        "different prefixes differ"
    );
    assert!(
        flavor.unique_name("x").unwrap() == flavor.unique_name("x").unwrap(),
        "same prefix matches"
    );
}

#[test]
fn dhcp_acl_rules_shape() {
    let rules = dhcp_acl_rules();
    assert!(rules.starts_with("[iptables]\n"), "starts with the iptables header");
    assert!(
        rules.contains("--physdev-in pf0hpf_if "),
        "covers the host-facing pf0hpf interface"
    );
    assert!(rules.contains("--physdev-in pf0vf0_if "), "covers vf0");
    assert!(rules.contains("--physdev-in pf0vf15_if "), "covers vf15 (last in range)");
    assert!(!rules.contains("pf0vf16_if"), "does not over-run to vf16");
    assert!(
        rules.lines().count() == 18,
        "header line plus 17 rule lines (hpf + vf0..15)"
    );
    assert!(
        rules.matches("-d 255.255.255.255").count() == 17,
        "every rule drops DHCP broadcast to .255"
    );
}

#[test]
fn ovs_defaults_contains_key_lines() {
    // doca/offload/br-sfc setup lines present.
    let raw = get_default_ovs_defaults();
    let tokens = [
        "other_config:doca-init=true",
        "other_config:hw-offload=true",
        "add-br br-sfc",
        "datapath_type=netdev",
        "type=dpdk",
        "mtu_request=9216",
    ];
    assert!(tokens.iter().all(|t| raw.contains(t)));
}

#[test]
fn default_nvconfig_shape() {
    let nv = get_default_nvconfig();
    assert!(
        matches!(nv.device, Some(DpuFlavorNvconfigDevice::KopiumVariant0)),
        "device is the only allowed wildcard variant"
    );
    assert!(nv.parameters.as_ref().map(|p| p.len()) == Some(16), "parameter count");
    assert!(
        nv.parameters.as_ref().map(|p| p.iter().any(|s| s == "SRIOV_EN=1")) == Some(true),
        "carries the SRIOV enable flag"
    );
    assert!(
        nv.parameters.as_ref().map(|p| p.iter().any(|s| s == "NUM_OF_VFS=16")) == Some(true),
        "carries NUM_OF_VFS=16"
    );
}

#[test]
fn default_flavor_name_is_the_standard_prefix() {
    assert_eq!(DEFAULT_FLAVOR_NAME, "dpu-flavor");
}

#[test]
fn default_nvconfig_parameters_are_exact() {
    assert_eq!(
        get_default_nvconfig().parameters.unwrap(),
        [
            "PF_BAR2_ENABLE=0",
            "PER_PF_NUM_SF=1",
            "PF_TOTAL_SF=30",
            "PF_SF_BAR_SIZE=10",
            "NUM_PF_MSIX_VALID=0",
            "PF_NUM_PF_MSIX_VALID=1",
            "PF_NUM_PF_MSIX=228",
            "INTERNAL_CPU_MODEL=1",
            "INTERNAL_CPU_OFFLOAD_ENGINE=0",
            "SRIOV_EN=1",
            "LAG_RESOURCE_ALLOCATION=1",
            "NUM_OF_VFS=16",
            "HIDE_PORT2_PF=True",
            "NUM_OF_PF=1",
            "LINK_TYPE_P1=2",
            "LINK_TYPE_P2=2",
        ]
    );
}

#[test]
fn ovs_defaults_are_exact() {
    let expected = [
        "_ovs-vsctl() {",
        "   ovs-vsctl --no-wait --timeout 15 \"$@\"",
        " }",
        "_ovs-vsctl set Open_vSwitch . other_config:doca-init=true",
        "_ovs-vsctl set Open_vSwitch . other_config:dpdk-max-memzones=50000",
        "_ovs-vsctl set Open_vSwitch . other_config:hw-offload=true",
        "_ovs-vsctl set Open_vSwitch . other_config:pmd-quiet-idle=true",
        "_ovs-vsctl set Open_vSwitch . other_config:max-idle=20000",
        "_ovs-vsctl set Open_vSwitch . other_config:max-revalidator=5000",
        "_ovs-vsctl set Open_vSwitch . other_config:ctl-pipe-size=1024",
        "_ovs-vsctl --if-exists del-br ovsbr1",
        "_ovs-vsctl --if-exists del-br ovsbr2",
        "_ovs-vsctl --may-exist add-br br-sfc",
        "_ovs-vsctl set bridge br-sfc datapath_type=netdev",
        "_ovs-vsctl set bridge br-sfc fail_mode=secure",
        "_ovs-vsctl --may-exist add-port br-sfc p0",
        "_ovs-vsctl set Interface p0 type=dpdk",
        "_ovs-vsctl set Interface p0 mtu_request=9216",
        "_ovs-vsctl set Port p0 external_ids:dpf-type=physical",
        "",
    ];
    assert_eq!(get_default_ovs_defaults(), expected.join("\n"));
}

#[test]
fn dhcp_acl_rules_are_exact() {
    let mut expected = String::from("[iptables]\n");
    let mut interfaces = vec!["pf0hpf_if".to_string()];
    for i in 0..16 {
        interfaces.push(format!("pf0vf{i}_if"));
    }
    for iface in interfaces {
        expected.push_str("-t filter -A FORWARD -p udp -d 255.255.255.255 --dport 67 ");
        expected.push_str(&format!("-m physdev --physdev-in {iface} "));
        expected.push_str("-m comment --comment 'offload:0' -j DROP\n");
    }
    assert_eq!(dhcp_acl_rules(), expected);
}

#[test]
fn base_config_files_are_exact() {
    let files = get_config_files(&None).unwrap();
    let bodies: Vec<&str> = files.iter().map(|f| f.raw.as_deref().unwrap()).collect();
    assert_eq!(
        bodies[0],
        "[program: cl-acltool]\ncommand = bash -c \"sleep 5 && /usr/cumulus/bin/cl-acltool -i\"\nstartsecs = 0\nautorestart = false\npriority = 200\n"
    );
    assert_eq!(bodies[1], dhcp_acl_rules());
    assert_eq!(
        bodies[2],
        "ALLOW_SHARED_RQ=\"no\"\nIPSEC_FULL_OFFLOAD=\"no\"\nENABLE_ESWITCH_MULTIPORT=\"yes\"\n"
    );
    assert_eq!(bodies[3], "CREATE_OVS_BRIDGES=\"no\"\nOVS_DOCA=\"yes\"\n");
    assert_eq!(bodies[4], "");
    for file in &files {
        assert_eq!(file.permissions.as_deref(), Some("0644"));
        assert_eq!(file.operation, Some(DpuFlavorConfigFilesOperation::Override));
    }
}

#[test]
fn bfcfg_parameters_are_exact() {
    let spec = default_flavor("ns", &None).unwrap().spec;
    assert_eq!(
        spec.bfcfg_parameters.unwrap(),
        ["UPDATE_ATF_UEFI=yes", "UPDATE_DPU_OS=yes", "WITH_NIC_FW_UPDATE=yes"]
    );
}

#[test]
fn proxy_files_follow_the_base_files() {
    let base = get_config_files(&None).unwrap();
    let all = get_config_files(&proxy("http://proxy:3128", &["b", "a"])).unwrap();
    assert_eq!(all.len(), base.len() + 1);
    for (a, b) in all.iter().zip(&base) {
        assert_eq!((&a.path, &a.raw), (&b.path, &b.raw));
    }
}

#[test]
fn https_proxy_is_checked_before_no_proxy() {
    let both = proxy("\"", &["\x01"]);
    match get_config_files(&both) {
        Err(DpfError::ConfigError(m)) => assert_eq!(
            m,
            "proxy https_proxy contains characters that are not allowed in a systemd \
             Environment= value (quotes, newlines, or control characters)"
        ),
        other => panic!("expected ConfigError, got {other:?}"),
    }
    match default_flavor("ns", &proxy("http://proxy:3128", &["ok", "a\"b"])) {
        Err(DpfError::ConfigError(m)) => assert_eq!(
            m,
            "proxy no_proxy entry contains characters that are not allowed in a systemd \
             Environment= value (quotes, newlines, or control characters)"
        ),
        other => panic!("expected ConfigError, got {other:?}"),
    }
}

#[test]
fn names_ignore_the_metadata() {
    let mut a = default_flavor("one", &None).unwrap();
    let b = default_flavor("two", &None).unwrap();
    a.metadata.name = Some("named".to_string());
    assert_eq!(a.unique_name("p").unwrap(), b.unique_name("p").unwrap());
}

#[test]
fn names_tell_apart_proxies_that_are_written_differently() {
    let two = name_for(&proxy("http://a:1", &["a,b"]));
    assert_eq!(two, name_for(&proxy("http://a:1", &["b", "a"])));
    assert_eq!(
        name_for(&proxy("http://a:1", &["a,b", "c"])),
        name_for(&proxy("http://a:1", &["c", "b", "a"]))
    );
    assert_ne!(two, name_for(&None));
    assert_ne!(two, name_for(&proxy("http://a:1", &[])));
    assert_ne!(two, name_for(&proxy("http://b:1", &["a,b"])));
    assert_ne!(two, name_for(&proxy("http://a:1", &["b,a"])));
    assert_ne!(two, name_for(&proxy("http://a:1", &["a,b", "c"])));
}

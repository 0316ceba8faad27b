use dpf::crds::{
    DPUFlavor, DpuFlavorConfigFiles, DpuFlavorConfigFilesOperation, DpuFlavorDpuMode,
    DpuFlavorNvconfig, DpuFlavorNvconfigDevice, DpuFlavorOvs, DpuFlavorSpec, ObjectMeta,
};
use dpf::digest::name_from_digest;
use dpf::flavor::default_flavor;
use sha2::Digest;

fn empty_spec() -> DpuFlavorSpec {
    DpuFlavorSpec {
        bfcfg_parameters: None,
        config_files: None,
        containerd_config: None,
        dpu_mode: None,
        dpu_resources: None,
        grub: None,
        host_network_interface_configs: None,
        nvconfig: None,
        ovs: None,
        sysctl: None,
        system_reserved_resources: None,
    }
}

fn flavor_of(spec: DpuFlavorSpec) -> DPUFlavor {
    DPUFlavor {
        metadata: ObjectMeta { name: None, namespace: None },
        spec,
    }
}

#[test]
fn an_empty_spec_is_an_empty_object() {
    assert_eq!(empty_spec().to_json().unwrap(), "{}");
}

#[test]
fn every_field_is_written_under_its_key_in_order() {
    let mut limits = serde_json::Map::new();
    limits.insert("memory".to_string(), serde_json::Value::from("6Gi"));
    limits.insert("cpu".to_string(), serde_json::Value::from(16));
    let spec = DpuFlavorSpec {
        bfcfg_parameters: Some(vec!["A=1".to_string(), "B=2".to_string()]),
        config_files: Some(vec![
            DpuFlavorConfigFiles {
                operation: Some(DpuFlavorConfigFilesOperation::Override),
                path: Some("/p".to_string()),
                permissions: Some("0644".to_string()),
                raw: Some("x\n".to_string()),
            },
            DpuFlavorConfigFiles { operation: None, path: None, permissions: None, raw: None },
        ]),
        containerd_config: Some(serde_json::Value::Null),
        dpu_mode: Some(DpuFlavorDpuMode::ZeroTrust),
        dpu_resources: Some(serde_json::Value::from_iter([("cpu", 8)])),
        grub: Some(serde_json::Value::from(vec!["k"])),
        host_network_interface_configs: Some(serde_json::Value::from(true)),
        nvconfig: Some(vec![DpuFlavorNvconfig {
            device: Some(DpuFlavorNvconfigDevice::KopiumVariant0),
            parameters: Some(vec!["C=3".to_string()]),
        }]),
        ovs: Some(DpuFlavorOvs { raw_config_script: Some("s".to_string()) }),
        sysctl: Some(serde_json::Value::from("t")),
        system_reserved_resources: Some(serde_json::Value::Object(limits)),
    };
    let text = spec.to_json().unwrap();
    let parsed: serde_json::Value = serde_json::from_str(&text).unwrap();
    assert_eq!(parsed["systemReservedResources"]["cpu"], serde_json::Value::from(16));
    let head = text.split("\"systemReservedResources\"").next().unwrap();
    assert_eq!(
        head,
        "{\"bfcfgParameters\":[\"A=1\",\"B=2\"],\
         \"configFiles\":[{\"operation\":\"override\",\"path\":\"/p\",\"permissions\":\"0644\",\"raw\":\"x\\n\"},{}],\
         \"containerdConfig\":null,\
         \"dpuMode\":\"zero-trust\",\
         \"dpuResources\":{\"cpu\":8},\
         \"grub\":[\"k\"],\
         \"hostNetworkInterfaceConfigs\":true,\
         \"nvconfig\":[{\"device\":\"*\",\"parameters\":[\"C=3\"]}],\
         \"ovs\":{\"rawConfigScript\":\"s\"},\
         \"sysctl\":\"t\","
    );
}

#[test]
fn strings_are_escaped() {
    let mut spec = empty_spec();
    spec.bfcfg_parameters = Some(vec![
        "\"\\/".to_string(),
        "\x08\t\n\x0c\r".to_string(),
        "\x00\x01\x0b\x1f\x7f".to_string(),
        "é日\u{10ffff}".to_string(),
    ]);
    assert_eq!(
        spec.to_json().unwrap(),
        "{\"bfcfgParameters\":[\"\\\"\\\\/\",\"\\b\\t\\n\\f\\r\",\
         \"\\u0000\\u0001\\u000b\\u001f\x7f\",\"é日\u{10ffff}\"]}"
    );
}

#[test]
fn empty_lists_are_written() {
    let mut spec = empty_spec();
    spec.config_files = Some(vec![]);
    spec.nvconfig = Some(vec![]);
    assert_eq!(spec.to_json().unwrap(), "{\"configFiles\":[],\"nvconfig\":[]}");
}

#[test]
fn the_name_of_an_empty_spec_is_known() {
    // SHA-256 of "{}" starts with 44136fa355b3678a.
    assert_eq!(
        flavor_of(empty_spec()).unique_name("dpu-flavor").unwrap(),
        "dpu-flavor-44136fa355b3678a"
    );
}

#[test]
fn the_name_is_the_digest_of_the_document() {
    let flavor = default_flavor("ns", &None).unwrap();
    let json = flavor.spec.to_json().unwrap();
    let hash = hex::encode(&sha2::Sha256::digest(json.as_bytes())[..8]);
    assert_eq!(flavor.unique_name("x").unwrap(), format!("x-{hash}"));
}

#[test]
fn the_default_document_reads_back() {
    let flavor = default_flavor("ns", &None).unwrap();
    let parsed: serde_json::Value =
        serde_json::from_str(&flavor.spec.to_json().unwrap()).unwrap();
    let keys: Vec<&String> = parsed.as_object().unwrap().keys().collect();
    assert_eq!(keys, ["bfcfgParameters", "configFiles", "dpuMode", "nvconfig", "ovs"]);
    let files = parsed["configFiles"].as_array().unwrap();
    for (written, file) in files.iter().zip(flavor.spec.config_files.unwrap()) {
        assert_eq!(written["raw"].as_str(), file.raw.as_deref());
        assert_eq!(written["path"].as_str(), file.path.as_deref());
    }
}

#[test]
fn a_digest_is_named_by_its_first_bytes() {
    let digest = [0x00, 0x0f, 0xf0, 0xff, 0x12, 0xab, 0x9c, 0x01, 0xee];
    assert_eq!(name_from_digest("p-q", &digest), "p-q-000ff0ff12ab9c01");
    assert_eq!(name_from_digest("", &digest[..8]), "-000ff0ff12ab9c01");
}

#[test]
fn any_field_shows_in_the_name() {
    let base = flavor_of(empty_spec()).unique_name("x").unwrap();
    let mut changed = Vec::new();
    let mut spec = empty_spec();
    spec.sysctl = Some(serde_json::Value::Null);
    changed.push(spec);
    let mut spec = empty_spec();
    spec.grub = Some(serde_json::Value::Null);
    changed.push(spec);
    let mut spec = empty_spec();
    spec.dpu_mode = Some(DpuFlavorDpuMode::ZeroTrust);
    changed.push(spec);
    let mut spec = empty_spec();
    spec.bfcfg_parameters = Some(vec!["a,b".to_string()]);
    changed.push(spec);
    let mut spec = empty_spec();
    spec.bfcfg_parameters = Some(vec!["a".to_string(), "b".to_string()]);
    changed.push(spec);
    let mut names: Vec<String> =
        changed.into_iter().map(|s| flavor_of(s).unique_name("x").unwrap()).collect();
    names.push(base);
    names.sort();
    names.dedup();
    assert_eq!(names.len(), 6);
}

#[test]
fn numbers_are_written_as_numbers() {
    let written = |value: serde_json::Value| {
        let mut spec = empty_spec();
        spec.grub = Some(value);
        spec.to_json().unwrap()
    };
    assert_eq!(written(serde_json::Value::from(0)), "{\"grub\":0}");
    assert_eq!(written(serde_json::Value::from(i64::MIN)), "{\"grub\":-9223372036854775808}");
    assert_eq!(written(serde_json::Value::from(u64::MAX)), "{\"grub\":18446744073709551615}");
    assert_eq!(written(serde_json::Value::from(-1.5)), "{\"grub\":-1.5}");
    for number in [0.0, -0.0, 1e300, -2.5e-300, f64::MAX, f64::MIN_POSITIVE, 5e-324] {
        let text = written(serde_json::Value::from(number));
        let digits = text.strip_prefix("{\"grub\":").unwrap().strip_suffix("}").unwrap();
        assert!(!digits.is_empty(), "{text}");
        assert!(digits.chars().all(|c| "0123456789-+.eE".contains(c)), "{text}");
        assert_eq!(digits.parse::<f64>().unwrap(), number);
    }
}

#[test]
fn sections_that_differ_show_in_the_name() {
    let named = |value: serde_json::Value| {
        let mut spec = empty_spec();
        spec.sysctl = Some(value);
        flavor_of(spec).unique_name("x").unwrap()
    };
    let numbers = serde_json::Value::from(vec![1, 23]);
    assert_eq!(named(numbers.clone()), named(numbers.clone()));
    assert_ne!(named(numbers), named(serde_json::Value::from(vec![12, 3])));
    assert_ne!(named(serde_json::Value::from(1)), named(serde_json::Value::from("1")));
    assert_ne!(named(serde_json::Value::from(1)), named(serde_json::Value::from(1.0)));
}

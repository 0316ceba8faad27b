use dpf::error::DpfError;
use dpf::proxy::{proxy_drop_in, validate_proxy_string};
use dpf::types::DpfProxyDetails;

fn details(https_proxy: &str, no_proxy: &[&str]) -> DpfProxyDetails {
    DpfProxyDetails {
        https_proxy: https_proxy.to_string(),
        no_proxy: no_proxy.iter().map(|s| s.to_string()).collect(),
    }
}

fn drop_in(no_proxy: &[&str]) -> String {
    proxy_drop_in(&details("u", no_proxy)).unwrap()
}

#[test]
fn drop_in_without_entries_is_exact() {
    assert_eq!(
        drop_in(&[]),
        "[Service]\nEnvironment=\"HTTPS_PROXY=u\"\nEnvironment=\"https_proxy=u\"\n"
    );
}

#[test]
fn drop_in_with_entries_is_exact() {
    assert_eq!(
        drop_in(&[" b ", "a", "b", ""]),
        "[Service]\nEnvironment=\"HTTPS_PROXY=u\"\nEnvironment=\"https_proxy=u\"\n\
         Environment=\"NO_PROXY=a,b\"\nEnvironment=\"no_proxy=a,b\"\n"
    );
}

#[test]
fn entries_are_ordered_like_std() {
    let entries = [
        "b", "a", "ab", "B", "é", "z", "\u{ffff}", "\u{10000}", "aa", "a b", "1", "10", "2", "-",
        "é", "ab", "日本", "日", "\u{e000}", "a", "c", "ba",
    ];
    let mut expected = entries.to_vec();
    expected.sort_unstable();
    expected.dedup();
    let value = expected.join(",");
    assert!(drop_in(&entries).contains(&format!("\"NO_PROXY={value}\"\n")));
}

#[test]
fn one_entry_that_begins_another_comes_first() {
    assert!(drop_in(&["host.example", "host"]).contains("NO_PROXY=host,host.example\""));
}

#[test]
fn every_white_space_character_is_trimmed() {
    for n in 0..0x3100u32 {
        let c = match char::from_u32(n) {
            Some(c) => c,
            None => continue,
        };
        let entry = format!("{c}x{c}");
        let white = (0x09..=0x0d).contains(&n)
            || (0x2000..=0x200a).contains(&n)
            || [0x20, 0x85, 0xa0, 0x1680, 0x2028, 0x2029, 0x202f, 0x205f, 0x3000].contains(&n);
        match proxy_drop_in(&details("u", &[&entry])) {
            Ok(raw) => {
                let value = if white { "x" } else { entry.as_str() };
                assert!(raw.contains(&format!("\"NO_PROXY={value}\"")), "U+{n:04X}");
            }
            Err(_) => assert!(n < 0x20 || c == '"' || n == 0x7f, "U+{n:04X}"),
        }
    }
}

#[test]
fn padding_and_blanks_change_nothing() {
    let plain = drop_in(&["a", "b"]);
    assert_eq!(drop_in(&["\u{3000}a\n", "\tb"]), plain);
    assert_eq!(drop_in(&["", "a", " \u{a0} ", "b", "\r\n"]), plain);
    assert_eq!(drop_in(&["b", "a", "b", "b"]), plain);
}

#[test]
fn an_entry_with_a_comma_reads_like_two() {
    assert_eq!(drop_in(&["a,b"]), drop_in(&["a", "b"]));
}

#[test]
fn an_accepted_drop_in_has_whole_lines() {
    let raw = proxy_drop_in(&details("http://p:1/a b~=\\", &["x=y", "\\n"])).unwrap();
    let lines: Vec<&str> = raw.lines().collect();
    assert_eq!(
        lines,
        [
            "[Service]",
            "Environment=\"HTTPS_PROXY=http://p:1/a b~=\\\"",
            "Environment=\"https_proxy=http://p:1/a b~=\\\"",
            "Environment=\"NO_PROXY=\\n,x=y\"",
            "Environment=\"no_proxy=\\n,x=y\"",
        ]
    );
}

#[test]
fn characters_beyond_ascii_are_allowed() {
    assert!(validate_proxy_string("\u{80}\u{9f}é日\u{10ffff}", "field").is_ok());
    assert!(validate_proxy_string(" !#", "field").is_ok());
}

#[test]
fn rejection_message_is_exact() {
    match validate_proxy_string("a\"", "some field") {
        Err(DpfError::ConfigError(m)) => assert_eq!(
            m,
            "proxy some field contains characters that are not allowed in a systemd \
             Environment= value (quotes, newlines, or control characters)"
        ),
        other => panic!("expected ConfigError, got {other:?}"),
    }
}

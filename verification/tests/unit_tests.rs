use vex::error::VexError;
use vex::gate::{classify_default_no, classify_default_yes};
use vex::qemu::parse_qemu_version;
use vex::record::{validate_config, QemuConfig};
use vex::storage::{config_file, resolve_config_root};
use vex::store::Store;

#[test]
fn default_yes_gate_accepts_empty_and_yes() {
    assert!(classify_default_yes(""));
    assert!(classify_default_yes("\n"));
    assert!(classify_default_yes("  \t "));
    assert!(classify_default_yes("y"));
    assert!(classify_default_yes("Y\n"));
    assert!(classify_default_yes("yes"));
    assert!(classify_default_yes("YES"));
    assert!(classify_default_yes("  yEs  "));
    assert!(!classify_default_yes("n"));
    assert!(!classify_default_yes("no"));
    assert!(!classify_default_yes("yess"));
    assert!(!classify_default_yes("maybe"));
}

#[test]
fn default_no_gate_accepts_only_explicit_yes() {
    assert!(!classify_default_no(""));
    assert!(!classify_default_no("\n"));
    assert!(!classify_default_no("   "));
    assert!(classify_default_no("y"));
    assert!(classify_default_no("Y"));
    assert!(classify_default_no("yes\n"));
    assert!(classify_default_no(" YES "));
    assert!(!classify_default_no("n"));
    assert!(!classify_default_no("anything else"));
}

#[test]
fn config_file_joins_root_name_and_extension() {
    assert_eq!(config_file("/home/u/.vex/configs", "vm"), "/home/u/.vex/configs/vm.json");
    assert_eq!(config_file("root", "a b"), "root/a b.json");
}

#[test]
fn config_root_prefers_a_nonempty_override() {
    let r = resolve_config_root(Some("/custom".to_string()), Some("/home/u".to_string()));
    assert_eq!(r.unwrap(), "/custom");
    let r = resolve_config_root(Some("".to_string()), Some("/home/u".to_string()));
    assert_eq!(r.unwrap(), "/home/u/.vex/configs");
    let r = resolve_config_root(None, Some("/home/u".to_string()));
    assert_eq!(r.unwrap(), "/home/u/.vex/configs");
    let r = resolve_config_root(None, None);
    assert!(matches!(r, Err(VexError::StorageUnavailable(_))));
    let r = resolve_config_root(Some("".to_string()), None);
    assert!(matches!(r, Err(VexError::StorageUnavailable(_))));
}

#[test]
fn validate_config_requires_an_executable() {
    let ok = QemuConfig { qemu_bin: "qemu".to_string(), args: vec![], desc: None };
    assert!(validate_config(&ok).is_ok());
    let bad = QemuConfig { qemu_bin: "".to_string(), args: vec![], desc: None };
    assert!(matches!(validate_config(&bad), Err(VexError::InvalidConfig(_))));
}

#[test]
fn error_messages_name_the_configuration() {
    assert_eq!(
        VexError::ConfigNotFound("vm".to_string()).message(),
        "Configuration 'vm' not found"
    );
    assert_eq!(
        VexError::ConfigAlreadyExists("vm".to_string()).message(),
        "Configuration 'vm' already exists"
    );
    assert_eq!(
        VexError::InvalidConfig("empty".to_string()).message(),
        "Invalid configuration: empty"
    );
    assert_eq!(VexError::IoError("disk gone".to_string()).message(), "IO error: disk gone");
    assert_eq!(
        VexError::SerializationError("bad text".to_string()).message(),
        "Serialization error: bad text"
    );
    assert_eq!(
        VexError::StorageUnavailable("no home".to_string()).message(),
        "Storage unavailable: no home"
    );
    assert_eq!(
        VexError::ExecutionFailed(2).message(),
        "QEMU execution failed with a non-zero exit code"
    );
}

#[test]
fn qemu_version_is_captured_from_a_report() {
    assert_eq!(
        parse_qemu_version("QEMU emulator version 8.2.0 (v8.2.0)").as_deref(),
        Some("8.2.0")
    );
    assert_eq!(parse_qemu_version("version 10.11.12"). as_deref(), Some("10.11.12"));
    assert_eq!(parse_qemu_version("no numbers here"), None);
    assert_eq!(parse_qemu_version("version eight"), None);
    assert_eq!(parse_qemu_version("version 1.2"), None);
    assert_eq!(
        parse_qemu_version("version abc then version 1.2.3 follows").as_deref(),
        Some("1.2.3")
    );
}

#[test]
fn store_keeps_insertion_order_and_unique_keys() {
    let mut s = Store::new();
    s.set("b".to_string(), "1".to_string());
    s.set("a".to_string(), "2".to_string());
    s.set("b".to_string(), "3".to_string());
    assert_eq!(s.len(), 2);
    assert_eq!(s.key_at(0), "b");
    assert_eq!(s.key_at(1), "a");
    assert_eq!(s.value_at(0), "3");
    assert_eq!(s.get(&"b".to_string()).unwrap(), "3");
    assert!(s.contains(&"a".to_string()));
    s.delete(&"b".to_string());
    assert_eq!(s.len(), 1);
    assert!(s.get(&"b".to_string()).is_none());
    assert_eq!(s.key_at(0), "a");
}

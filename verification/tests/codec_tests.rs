use vex::codec::{decode_config, encode_config};
use vex::record::QemuConfig;

fn record(bin: &str, args: &[&str], desc: Option<&str>) -> QemuConfig {
    QemuConfig {
        qemu_bin: bin.to_string(),
        args: args.iter().map(|s| s.to_string()).collect(),
        desc: desc.map(|s| s.to_string()),
    }
}

fn assert_round_trip(c: &QemuConfig) {
    let text = encode_config(c);
    let back = decode_config(&text).expect("canonical text must decode");
    assert_eq!(back.qemu_bin, c.qemu_bin);
    assert_eq!(back.args, c.args);
    assert_eq!(back.desc, c.desc);
}

#[test]
fn encode_is_the_canonical_pretty_text() {
    let c = record("qemu-system-x86_64", &["-m", "2048"], None);
    let text = encode_config(&c);
    assert_eq!(
        text,
        "{\n  \"qemu_bin\": \"qemu-system-x86_64\",\n  \"args\": [\n    \"-m\",\n    \"2048\"\n  ],\n  \"desc\": null\n}"
    );
}

#[test]
fn encode_empty_args_and_description() {
    let c = record("qemu", &[], Some("a vm"));
    let text = encode_config(&c);
    assert_eq!(text, "{\n  \"qemu_bin\": \"qemu\",\n  \"args\": [],\n  \"desc\": \"a vm\"\n}");
}

#[test]
fn round_trip_plain_record() {
    assert_round_trip(&record("qemu-system-x86_64", &["-hda", "disk.img"], Some("main vm")));
}

#[test]
fn round_trip_empty_args_no_description() {
    assert_round_trip(&record("echo", &[], None));
}

#[test]
fn round_trip_escaped_characters() {
    assert_round_trip(&record(
        "a \"quoted\" \\ path",
        &["line\nbreak", "tab\there", "cr\rhere"],
        Some("desc with \"everything\" \\ in it"),
    ));
}

#[test]
fn round_trip_control_characters() {
    let odd: String = vec!['\u{01}', '\u{1f}', 'x', '\u{07}'].into_iter().collect();
    assert_round_trip(&record(&odd, &[&odd], Some(&odd)));
}

#[test]
fn round_trip_unicode_text() {
    assert_round_trip(&record("qemu", &["–dash", "emoji 🎛", "καλημέρα"], Some("π ≈ 3")));
}

#[test]
fn decode_rejects_malformed_text() {
    assert!(decode_config("").is_none());
    assert!(decode_config("garbage").is_none());
    assert!(decode_config("{}").is_none());
    // a required field missing
    assert!(decode_config("{\n  \"qemu_bin\": \"q\",\n  \"desc\": null\n}").is_none());
    // a type mismatch: args holding a number, not a string
    assert!(
        decode_config("{\n  \"qemu_bin\": \"q\",\n  \"args\": [\n    7\n  ],\n  \"desc\": null\n}")
            .is_none()
    );
    // trailing text after the record
    let c = record("q", &[], None);
    let mut text = encode_config(&c);
    text.push(' ');
    assert!(decode_config(&text).is_none());
}

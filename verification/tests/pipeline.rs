use dprint_plugin_toml::ConfigurationBuilder;
use dprint_plugin_toml::configuration::NewLineKind;
use dprint_plugin_toml::format_text;

const MANIFEST: &str = "[package]\nlicense = \"MIT\"\nversion = \"1.0.0\"\nname = \"demo\"\ndescription = \"a demo\"\n\n[dependencies]\nzeta = \"1\"\nalpha = \"2\"\nmu = \"3\"\n";

fn pos(haystack: &str, needle: &str) -> usize {
    haystack.find(needle).unwrap_or_else(|| panic!("{:?} not found in {:?}", needle, haystack))
}

#[test]
fn manifest_sections_are_reordered() {
    let config = ConfigurationBuilder::new().build();
    let out = format_text("Cargo.toml", MANIFEST, &config).unwrap();
    let name = pos(&out, "name =");
    let version = pos(&out, "version =");
    let license = pos(&out, "license =");
    let description = pos(&out, "description =");
    assert!(name < version && version < license && license < description);
    let alpha = pos(&out, "alpha =");
    let mu = pos(&out, "mu =");
    let zeta = pos(&out, "zeta =");
    assert!(alpha < mu && mu < zeta);
    assert!(pos(&out, "[package]") < pos(&out, "[dependencies]"));
}

#[test]
fn non_manifest_path_passes_through_unordered() {
    let config = ConfigurationBuilder::new().build();
    let out = format_text("settings.toml", MANIFEST, &config).unwrap();
    let license = pos(&out, "license =");
    let version = pos(&out, "version =");
    let name = pos(&out, "name =");
    assert!(license < version && version < name);
    let zeta = pos(&out, "zeta =");
    let alpha = pos(&out, "alpha =");
    assert!(zeta < alpha);
}

#[test]
fn manifest_path_must_be_a_final_component() {
    let config = ConfigurationBuilder::new().build();
    let nested = format_text("crates/demo/Cargo.toml", MANIFEST, &config).unwrap();
    assert!(pos(&nested, "name =") < pos(&nested, "license ="));
    let similar = format_text("NotCargo.toml", MANIFEST, &config).unwrap();
    assert!(pos(&similar, "license =") < pos(&similar, "name ="));
}

#[test]
fn formatting_is_idempotent() {
    let config = ConfigurationBuilder::new().build();
    let once = format_text("Cargo.toml", MANIFEST, &config).unwrap();
    let twice = format_text("Cargo.toml", &once, &config).unwrap();
    assert_eq!(once, twice);
}

#[test]
fn crlf_configuration_is_honored() {
    let config = ConfigurationBuilder::new()
        .new_line_kind(NewLineKind::CarriageReturnLineFeed)
        .build();
    let out = format_text("settings.toml", "a = 1\nb = 2\n", &config).unwrap();
    assert!(out.contains("\r\n"));
    let lf = ConfigurationBuilder::new().new_line_kind(NewLineKind::LineFeed).build();
    let out_lf = format_text("settings.toml", "a = 1\r\nb = 2\r\n", &lf).unwrap();
    assert!(!out_lf.contains("\r\n"));
}

#[test]
fn auto_newline_follows_the_source() {
    let config = ConfigurationBuilder::new().new_line_kind(NewLineKind::Auto).build();
    let out = format_text("settings.toml", "a = 1\r\nb = 2\r\n", &config).unwrap();
    assert!(out.contains("\r\n"));
    let out_lf = format_text("settings.toml", "a = 1\nb = 2\n", &config).unwrap();
    assert!(!out_lf.contains("\r\n"));
}

#[test]
fn parse_failure_is_surfaced_with_excerpt() {
    let config = ConfigurationBuilder::new().build();
    let result = format_text("settings.toml", "valid = 1\nbroken = = 2\n", &config);
    let err = result.err().expect("invalid text must fail");
    assert!(!err.message.is_empty());
    assert!(err.message.contains("broken"));
}

use dprint_plugin_toml::conventions::ElemInfo;
use dprint_plugin_toml::conventions::apply_cargo_toml_conventions;

fn header(text: &str) -> ElemInfo {
    ElemInfo {
        is_node: true,
        is_entry: false,
        text: String::from(text),
        key: String::new(),
        index: 0,
    }
}

fn entry(key: &str) -> ElemInfo {
    ElemInfo {
        is_node: true,
        is_entry: true,
        text: format!("{} = \"v\"", key),
        key: String::from(key),
        index: 0,
    }
}

fn newline() -> ElemInfo {
    ElemInfo {
        is_node: false,
        is_entry: false,
        text: String::from("\n"),
        key: String::new(),
        index: 0,
    }
}

fn keys_in_order(elems: &[ElemInfo]) -> Vec<String> {
    elems.iter().filter(|e| e.is_entry).map(|e| e.key.clone()).collect()
}

#[test]
fn package_identity_ordering() {
    let elems = vec![
        header("[package]"),
        newline(),
        entry("license"),
        newline(),
        entry("version"),
        newline(),
        entry("name"),
        newline(),
        entry("description"),
        newline(),
    ];
    let out = apply_cargo_toml_conventions(&elems);
    assert_eq!(keys_in_order(&out), vec!["name", "version", "license", "description"]);
    // tokens keep their positions
    assert_eq!(out[1].text, "\n");
    assert_eq!(out[0].text, "[package]");
}

#[test]
fn dependency_ordering_leaves_neighbors_alone() {
    let elems = vec![
        header("[first]"),
        newline(),
        entry("delta"),
        newline(),
        entry("carol"),
        newline(),
        header("[dependencies]"),
        newline(),
        entry("zeta"),
        newline(),
        entry("alpha"),
        newline(),
        entry("mu"),
        newline(),
        header("[last]"),
        newline(),
        entry("omega"),
        newline(),
        entry("iota"),
    ];
    let out = apply_cargo_toml_conventions(&elems);
    assert_eq!(
        keys_in_order(&out),
        vec!["delta", "carol", "alpha", "mu", "zeta", "omega", "iota"]
    );
    assert_eq!(out[6].text, "[dependencies]");
    assert_eq!(out[14].text, "[last]");
}

#[test]
fn dev_dependency_ordering() {
    let elems = vec![
        header("[dev-dependencies]"),
        newline(),
        entry("zeta"),
        newline(),
        entry("alpha"),
    ];
    let out = apply_cargo_toml_conventions(&elems);
    assert_eq!(keys_in_order(&out), vec!["alpha", "zeta"]);
}

#[test]
fn unrecognized_sections_untouched() {
    let elems = vec![
        header("[workspace]"),
        newline(),
        entry("zeta"),
        newline(),
        entry("alpha"),
    ];
    let out = apply_cargo_toml_conventions(&elems);
    assert_eq!(keys_in_order(&out), vec!["zeta", "alpha"]);
}

#[test]
fn equal_keys_keep_their_order() {
    let mut first = entry("alpha");
    first.text = String::from("alpha = 1");
    let mut second = entry("alpha");
    second.text = String::from("alpha = 2");
    let elems = vec![header("[dependencies]"), newline(), entry("beta"), newline(), first, newline(), second];
    let out = apply_cargo_toml_conventions(&elems);
    let texts: Vec<String> =
        out.iter().filter(|e| e.is_entry).map(|e| e.text.clone()).collect();
    assert_eq!(texts, vec!["alpha = 1", "alpha = 2", "beta = \"v\""]);
}

#[test]
fn empty_section_is_a_no_op() {
    let elems = vec![header("[package]"), newline(), header("[dependencies]")];
    let out = apply_cargo_toml_conventions(&elems);
    assert_eq!(out.len(), 3);
    assert_eq!(out[0].text, "[package]");
    assert_eq!(out[2].text, "[dependencies]");
}

#[test]
fn applying_conventions_twice_changes_nothing() {
    let elems = vec![
        header("[package]"),
        newline(),
        entry("license"),
        newline(),
        entry("name"),
        newline(),
        header("[dependencies]"),
        newline(),
        entry("zeta"),
        newline(),
        entry("alpha"),
    ];
    let once = apply_cargo_toml_conventions(&elems);
    let twice = apply_cargo_toml_conventions(&once);
    assert_eq!(keys_in_order(&once), keys_in_order(&twice));
    for (a, b) in once.iter().zip(twice.iter()) {
        assert_eq!(a.text, b.text);
        assert_eq!(a.key, b.key);
        assert_eq!(a.is_node, b.is_node);
        assert_eq!(a.is_entry, b.is_entry);
    }
}

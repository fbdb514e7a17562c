use dprint_plugin_toml::configuration::ConfigKeyMap;
use dprint_plugin_toml::configuration::ConfigValue;
use dprint_plugin_toml::configuration::GlobalConfiguration;
use dprint_plugin_toml::configuration::NewLineKind;
use dprint_plugin_toml::configuration::resolve_config;

fn empty_global() -> GlobalConfiguration {
    GlobalConfiguration {
        line_width: None,
        use_tabs: None,
        indent_width: None,
        new_line_kind: None,
    }
}

fn map_of(entries: Vec<(&str, ConfigValue)>) -> ConfigKeyMap {
    ConfigKeyMap {
        entries: entries.into_iter().map(|(k, v)| (String::from(k), v)).collect(),
    }
}

#[test]
fn resolver_fills_missing_fields_from_global_then_defaults() {
    let global = GlobalConfiguration {
        line_width: Some(90),
        use_tabs: Some(true),
        indent_width: None,
        new_line_kind: Some(NewLineKind::CarriageReturnLineFeed),
    };
    let result = resolve_config(&map_of(vec![]), &global);
    assert_eq!(result.config.line_width, 90);
    assert_eq!(result.config.use_tabs, true);
    assert_eq!(result.config.indent_width, 2);
    assert_eq!(
        result.config.new_line_kind == NewLineKind::CarriageReturnLineFeed,
        true
    );
    assert_eq!(result.diagnostics.len(), 0);
}

#[test]
fn unknown_key_is_diagnosed_not_fatal() {
    let overrides = map_of(vec![
        ("lineWidth", ConfigValue::Int(90)),
        ("linewidth", ConfigValue::Int(80)),
    ]);
    let result = resolve_config(&overrides, &empty_global());
    assert_eq!(result.config.line_width, 90);
    assert_eq!(result.diagnostics.len(), 1);
    assert_eq!(result.diagnostics[0].property_name, "linewidth");
    assert_eq!(result.diagnostics[0].message, "Unknown property in configuration");
}

#[test]
fn wrong_type_falls_back_with_diagnostic() {
    let overrides = map_of(vec![("lineWidth", ConfigValue::Bool(true))]);
    let result = resolve_config(&overrides, &empty_global());
    assert_eq!(result.config.line_width, 120);
    assert_eq!(result.diagnostics.len(), 1);
    assert_eq!(result.diagnostics[0].property_name, "lineWidth");
    assert_eq!(result.diagnostics[0].message, "Expected a positive integer value");
}

#[test]
fn out_of_range_indent_width_falls_back_with_diagnostic() {
    let overrides = map_of(vec![("indentWidth", ConfigValue::Int(300))]);
    let result = resolve_config(&overrides, &empty_global());
    assert_eq!(result.config.indent_width, 2);
    assert_eq!(result.diagnostics.len(), 1);
    assert_eq!(result.diagnostics[0].property_name, "indentWidth");
}

#[test]
fn unrecognized_new_line_kind_falls_back_with_diagnostic() {
    let overrides = map_of(vec![("newLineKind", ConfigValue::Str(String::from("mac")))]);
    let result = resolve_config(&overrides, &empty_global());
    assert_eq!(result.config.new_line_kind == NewLineKind::LineFeed, true);
    assert_eq!(result.diagnostics.len(), 1);
    assert_eq!(result.diagnostics[0].property_name, "newLineKind");
    assert_eq!(result.diagnostics[0].message, "Expected one of: auto, lf, crlf");
}

#[test]
fn override_wins_over_global() {
    let global = GlobalConfiguration {
        line_width: Some(90),
        use_tabs: None,
        indent_width: None,
        new_line_kind: None,
    };
    let overrides = map_of(vec![("lineWidth", ConfigValue::Int(100))]);
    let result = resolve_config(&overrides, &global);
    assert_eq!(result.config.line_width, 100);
    assert_eq!(result.diagnostics.len(), 0);
}

#[test]
fn resolver_all_recognized_values() {
    let overrides = map_of(vec![
        ("lineWidth", ConfigValue::Int(90)),
        ("useTabs", ConfigValue::Bool(true)),
        ("indentWidth", ConfigValue::Int(4)),
        ("newLineKind", ConfigValue::Str(String::from("auto"))),
    ]);
    let result = resolve_config(&overrides, &empty_global());
    assert_eq!(result.config.line_width, 90);
    assert_eq!(result.config.use_tabs, true);
    assert_eq!(result.config.indent_width, 4);
    assert_eq!(result.config.new_line_kind == NewLineKind::Auto, true);
    assert_eq!(result.diagnostics.len(), 0);
}

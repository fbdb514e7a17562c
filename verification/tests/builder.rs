use dprint_plugin_toml::configuration::ConfigurationBuilder;
use dprint_plugin_toml::configuration::GlobalConfiguration;
use dprint_plugin_toml::configuration::NewLineKind;
use dprint_plugin_toml::configuration::resolve_config;

/// Converts a global configuration produced by the host's resolver into
/// the library's model of it.
fn convert_global(g: dprint_core::configuration::GlobalConfiguration) -> GlobalConfiguration {
    GlobalConfiguration {
        line_width: g.line_width,
        use_tabs: g.use_tabs,
        indent_width: g.indent_width,
        new_line_kind: g.new_line_kind.map(|k| match k {
            dprint_core::configuration::NewLineKind::Auto => NewLineKind::Auto,
            dprint_core::configuration::NewLineKind::LineFeed => NewLineKind::LineFeed,
            dprint_core::configuration::NewLineKind::CarriageReturnLineFeed => {
                NewLineKind::CarriageReturnLineFeed
            }
        }),
    }
}

fn resolve_host_global(
    mut map: dprint_core::configuration::ConfigKeyMap,
) -> GlobalConfiguration {
    convert_global(dprint_core::configuration::resolve_global_config(&mut map).config)
}

#[test]
fn check_all_values_set() {
    let config = ConfigurationBuilder::new()
        .new_line_kind(NewLineKind::CarriageReturnLineFeed)
        .line_width(90)
        .use_tabs(true)
        .indent_width(4)
        .new_line_kind(NewLineKind::CarriageReturnLineFeed);

    let inner_config = config.get_inner_config();
    assert_eq!(inner_config.entries.len(), 4);
    let global = resolve_host_global(dprint_core::configuration::ConfigKeyMap::new());
    let diagnostics = resolve_config(&inner_config, &global).diagnostics;
    assert_eq!(diagnostics.len(), 0);
}

#[test]
fn handle_global_config() {
    let mut global_config = dprint_core::configuration::ConfigKeyMap::new();
    global_config.insert(String::from("lineWidth"), 90.into());
    global_config.insert(String::from("newLineKind"), "crlf".into());
    global_config.insert(String::from("useTabs"), true.into());
    let global_config = resolve_host_global(global_config);
    let config = ConfigurationBuilder::new().global_config(global_config).build();
    assert_eq!(config.line_width, 90);
    assert_eq!(
        config.new_line_kind == NewLineKind::CarriageReturnLineFeed,
        true
    );
}

#[test]
fn use_defaults_when_global_not_set() {
    let global_config = resolve_host_global(dprint_core::configuration::ConfigKeyMap::new());
    let config = ConfigurationBuilder::new().global_config(global_config).build();
    assert_eq!(config.indent_width, 2); // this is different
    assert_eq!(config.new_line_kind == NewLineKind::LineFeed, true);
}

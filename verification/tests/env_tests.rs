use bijjou::config::{config_location, settings_panic, Activate, Config, ConfigError, ConfigLocation, Pager};

fn vars(v: &[(&str, &str)]) -> Vec<(String, String)> {
    v.iter().map(|(k, v)| (k.to_string(), v.to_string())).collect()
}

#[test]
fn env_settings_pick_sort_and_rename_the_bijjou_variables() {
    let got = Config::env_settings(&vars(&[
        ("PATH", "/bin"),
        ("BIJJOU__PAGER", "never"),
        ("BIJJOU__ACTIVATE", "auto"),
        ("BIJJOU__LAYOUT__DASH_START", "<"),
        ("HOME", "/root"),
    ]));
    assert_eq!(
        got,
        vars(&[("activate", "auto"), ("layout.dash-start", "<"), ("pager", "never")])
    );
}

#[test]
fn env_applies_in_name_order() {
    let mut c = Config::default();
    c.apply_env(&vars(&[("BIJJOU__PAGER", "never"), ("BIJJOU__ACTIVATE", "never")])).unwrap();
    assert_eq!(c.pager, Pager::Never);
    assert_eq!(c.activate, Activate::Never);
}

#[test]
fn env_unknown_key_names_env_as_its_source() {
    let mut c = Config::default();
    match c.apply_env(&vars(&[("BIJJOU__NOPE", "1")])) {
        Err(ConfigError::UnknownKey { src, key }) => {
            assert_eq!(src, b"env");
            assert_eq!(key, b"nope");
        }
        other => panic!("unexpected: {:?}", other),
    }
}

#[test]
fn env_refusal_keeps_earlier_settings() {
    let mut c = Config::default();
    let r = c.apply_env(&vars(&[("BIJJOU__ACTIVATE", "never"), ("BIJJOU__PAGER", "sometimes")]));
    assert!(r.is_err());
    assert_eq!(c.activate, Activate::Never);
    assert_eq!(c.pager, Pager::Auto);
}

#[test]
fn env_checked_refuses_a_colour_cut_inside_a_character() {
    let mut c = Config::default();
    assert!(c.apply_env_checked(&vars(&[("BIJJOU__COLORS__GRAPH_EDGE", "#aébcd")])).is_none());
    assert!(c.apply_env_checked(&vars(&[("BIJJOU__COLORS__GRAPH_EDGE", "12")])).unwrap().is_ok());
    assert_eq!(c.edge_dim_on, b"\x1b[38;5;12m".to_vec());
}

#[test]
fn a_refusal_before_a_bad_colour_stops_the_run_first() {
    assert!(!settings_panic(&vars(&[("bogus", "x"), ("colors.graph-edge", "#aébcd")])));
    assert!(settings_panic(&vars(&[("pager", "never"), ("colors.graph-edge", "#aébcd")])));
}

#[test]
fn config_location_prefers_bijjou_config_then_xdg_then_home() {
    assert_eq!(
        config_location(Some("/etc/b.toml"), Some("/x"), Some("/h")),
        Some(ConfigLocation::File("/etc/b.toml".to_string()))
    );
    assert_eq!(config_location(Some(""), Some("/x"), Some("/h")), Some(ConfigLocation::ConfigHome("/x".to_string())));
    assert_eq!(config_location(None, Some(""), Some("/h")), Some(ConfigLocation::Home("/h".to_string())));
    assert_eq!(config_location(None, None, Some("")), None);
    assert_eq!(config_location(None, None, None), None);
}

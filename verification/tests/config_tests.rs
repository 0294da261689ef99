use bijjou::config::{parse_pager, parse_screen_height, ConfigError, ValueError};
use bijjou::config::{
    env_key_to_config_key, parse_activate, parse_batch_size, parse_bool_str, parse_color_str,
    parse_hydra_colors, Activate, BatchSize, Color, Config, HydraColors, HydraPrefixReplace,
    HydraPrefixes, Pager, DEFAULT_DASH, DEFAULT_DASH_END, DEFAULT_DASH_START, DEFAULT_DIM_ON,
    DEFAULT_HYDRA_STACK_HEAD, DEFAULT_STREAM_BATCH_SIZE,
};

fn args(v: &[&str]) -> Vec<String> {
    v.iter().map(|s| s.to_string()).collect()
}

#[test]
fn cli_pager_value() {
    let mut cfg = Config::default();
    cfg.apply_cli(args(&["--pager=never"])).unwrap();
    assert_eq!(cfg.pager, Pager::Never);
}

#[test]
fn cli_bare_color_sets_always() {
    let mut cfg = Config {
        color: Color::Never,
        ..Default::default()
    };
    cfg.apply_cli(args(&["--color"])).unwrap();
    assert_eq!(cfg.color, Color::Always);
}

#[test]
fn cli_color_value() {
    for (s, want) in [
        ("auto", Color::Auto),
        ("always", Color::Always),
        ("never", Color::Never),
    ] {
        let mut cfg = Config::default();
        cfg.apply_cli(args(&[&format!("--color={}", s)])).unwrap();
        assert_eq!(cfg.color, want);
    }
}

#[test]
fn cli_color_invalid_value_errors() {
    let mut cfg = Config::default();
    assert!(cfg.apply_cli(args(&["--color=sometimes"])).is_err());
}

#[test]
fn cli_color_nested_form() {
    let mut cfg = Config::default();
    cfg.apply_cli(args(&["--ui__color=never"])).unwrap();
    assert_eq!(cfg.color, Color::Never);
}

#[test]
fn cli_bare_activate_sets_always() {
    let mut cfg = Config {
        activate: Activate::Never,
        ..Default::default()
    };
    cfg.apply_cli(args(&["--activate"])).unwrap();
    assert_eq!(cfg.activate, Activate::Always);
}

#[test]
fn cli_activate_value() {
    let mut cfg = Config::default();
    cfg.apply_cli(args(&["--activate=always"])).unwrap();
    assert_eq!(cfg.activate, Activate::Always);
}

#[test]
fn cli_nested_key_dots_via_double_underscore() {
    let mut cfg = Config::default();
    cfg.apply_cli(args(&["--graph__edges__chars__horizontal=X"]))
        .unwrap();
    assert_eq!(cfg.graph_horizontal, "X");
}

#[test]
fn cli_color_int_and_hex() {
    let mut cfg = Config::default();
    cfg.apply_cli(args(&[
        "--colors__graph-edge=200",
        "--colors__dash-filler=#aabbcc",
    ]))
    .unwrap();
    assert_eq!(cfg.edge_dim_on, b"\x1b[38;5;200m".to_vec());
    assert_eq!(cfg.dim_on, b"\x1b[38;2;170;187;204m".to_vec());
}

#[test]
fn cli_unknown_key_errors() {
    let mut cfg = Config::default();
    assert!(cfg.apply_cli(args(&["--bogus=x"])).is_err());
}

#[test]
fn cli_missing_value_errors() {
    let mut cfg = Config::default();
    assert!(cfg.apply_cli(args(&["--layout__dash"])).is_err());
}

#[test]
fn cli_overrides_existing_value() {
    let mut cfg = Config::default();
    cfg.apply_kv("layout.dash", "-", "").unwrap();
    cfg.apply_cli(args(&["--layout__dash=="])).unwrap();
    assert_eq!(cfg.dash, "=");
}

#[test]
fn apply_kv_unknown_key_errors() {
    let mut cfg = Config::default();
    assert!(cfg.apply_kv("nope.x", "v", "env").is_err());
}

#[test]
fn env_key_uppercase_lowercases() {
    assert_eq!(env_key_to_config_key("ACTIVATE"), "activate");
}

#[test]
fn env_key_double_underscore_becomes_dot() {
    assert_eq!(
        env_key_to_config_key("GRAPH__EDGES__CHARS__TOP_LEFT"),
        "graph.edges.chars.top-left"
    );
}

#[test]
fn env_key_lowercase_hyphen_form_unchanged() {
    assert_eq!(
        env_key_to_config_key("graph__edges__chars__top-left"),
        "graph.edges.chars.top-left"
    );
}

#[test]
fn env_key_single_underscore_becomes_hyphen() {
    assert_eq!(
        env_key_to_config_key("LAYOUT__DASH_START"),
        "layout.dash-start"
    );
}

#[test]
fn cli_bare_stream_sets_enabled() {
    let mut cfg = Config {
        stream_enabled: false,
        ..Default::default()
    };
    cfg.apply_cli(args(&["--stream"])).unwrap();
    assert!(cfg.stream_enabled);
}

#[test]
fn cli_stream_true() {
    let mut cfg = Config {
        stream_enabled: false,
        ..Default::default()
    };
    cfg.apply_cli(args(&["--stream=true"])).unwrap();
    assert!(cfg.stream_enabled);
}

#[test]
fn cli_stream_false() {
    let mut cfg = Config::default();
    cfg.apply_cli(args(&["--stream=false"])).unwrap();
    assert!(!cfg.stream_enabled);
}

#[test]
fn cli_stream_invalid_value_errors() {
    let mut cfg = Config::default();
    assert!(cfg.apply_cli(args(&["--stream=sometimes"])).is_err());
}

#[test]
fn cli_stream_batch_size() {
    let mut cfg = Config::default();
    cfg.apply_cli(args(&["--stream", "--stream__batch-size=32"]))
        .unwrap();
    assert!(cfg.stream_enabled);
    assert_eq!(cfg.stream_batch_size, BatchSize::Fixed(32));
}

#[test]
fn cli_stream_batch_size_zero_errors() {
    let mut cfg = Config::default();
    assert!(cfg.apply_cli(args(&["--stream__batch-size=0"])).is_err());
}

#[test]
fn cli_stream_batch_size_non_integer_errors() {
    let mut cfg = Config::default();
    assert!(cfg.apply_cli(args(&["--stream__batch-size=abc"])).is_err());
}

#[test]
fn cli_stream_batch_size_half_pager() {
    let mut cfg = Config::default();
    cfg.apply_cli(args(&["--stream__batch-size=half-pager"]))
        .unwrap();
    assert_eq!(cfg.stream_batch_size, BatchSize::HalfPager);
}

#[test]
fn cli_layout_dash_start() {
    let mut cfg = Config::default();
    cfg.apply_cli(args(&["--layout__dash-start=<"])).unwrap();
    assert_eq!(cfg.dash_start, "<");
}

#[test]
fn cli_layout_dash_end() {
    let mut cfg = Config::default();
    cfg.apply_cli(args(&["--layout__dash-end=>"])).unwrap();
    assert_eq!(cfg.dash_end, ">");
}

#[test]
fn graph_collapse_invalid_value_errors() {
    let mut cfg = Config::default();
    assert!(cfg
        .apply_cli(args(&["--graph__collapse=sometimes"]))
        .is_err());
}

#[test]
fn hydra_colors_cli_list_is_comma_separated() {
    let mut cfg = Config::default();
    cfg.apply_cli(args(&["--hydra__colors=1,#aabbcc"])).unwrap();
    assert_eq!(
        cfg.hydra_colors,
        HydraColors::Palette(vec![
            b"\x1b[38;5;1m".to_vec(),
            b"\x1b[38;2;170;187;204m".to_vec(),
        ])
    );
}

#[test]
fn hydra_colors_rejects_bad_entries() {
    let mut cfg = Config::default();
    assert!(cfg.apply_cli(args(&["--hydra__colors=1,999"])).is_err());
    assert!(cfg.apply_cli(args(&["--hydra__colors=1,,2"])).is_err());
    assert!(cfg.apply_cli(args(&["--hydra__colors=sometimes"])).is_err());
}

#[test]
fn hydra_toggles_reject_non_bools() {
    let mut cfg = Config::default();
    assert!(cfg.apply_cli(args(&["--hydra__enable=sometimes"])).is_err());
    assert!(cfg
        .apply_cli(args(&["--hydra__top-stack-padding=sometimes"]))
        .is_err());
}

#[test]
fn defaults_match_the_documented_values() {
    let cfg = Config::default();
    assert_eq!(cfg.dash, DEFAULT_DASH);
    assert_eq!(cfg.dash_start, DEFAULT_DASH_START);
    assert_eq!(cfg.dash_end, DEFAULT_DASH_END);
    assert_eq!(cfg.dim_on, DEFAULT_DIM_ON.to_vec());
    assert_eq!(cfg.activate, Activate::Always);
    assert_eq!(cfg.pager, Pager::Auto);
    assert_eq!(cfg.color, Color::Auto);
    assert!(cfg.stream_enabled);
    assert_eq!(cfg.stream_batch_size, BatchSize::Fixed(DEFAULT_STREAM_BATCH_SIZE));
    assert!(!cfg.graph_collapse);
    assert!(cfg.hydra_enable);
    assert!(cfg.hydra_top_stack_padding);
    assert_eq!(cfg.hydra_colors, HydraColors::Hash);
    assert!(cfg.hydra_color_bookmarks);
    assert_eq!(cfg.hydra_prefixes.stack_head, DEFAULT_HYDRA_STACK_HEAD);
    assert!(cfg.templates.get(b"log_oneline").is_some());
}

#[test]
fn later_cli_argument_wins() {
    let mut cfg = Config::default();
    cfg.apply_cli(args(&["--layout__dash=a", "--layout__dash=b"])).unwrap();
    assert_eq!(cfg.dash, "b");
}

#[test]
fn refused_argument_keeps_earlier_ones_and_stops() {
    let mut cfg = Config::default();
    assert!(cfg
        .apply_cli(args(&["--layout__dash=a", "plain", "--layout__dash=c"]))
        .is_err());
    assert_eq!(cfg.dash, "a");
}

#[test]
fn refused_value_leaves_config_unchanged() {
    let mut cfg = Config::default();
    assert!(cfg.apply_kv("pager", "sometimes", "").is_err());
    assert_eq!(cfg.pager, Pager::Auto);
}

#[test]
fn templates_key_must_be_flat() {
    let mut cfg = Config::default();
    assert!(cfg.apply_kv("templates.", "x", "").is_err());
    assert!(cfg.apply_kv("templates.a.b", "x", "").is_err());
    cfg.apply_kv("templates.mine", "%{x}", "").unwrap();
    assert!(cfg.templates.get(b"mine").is_some());
}

#[test]
fn value_parsers_read_their_forms() {
    assert_eq!(parse_activate("auto").unwrap(), Activate::Auto);
    assert!(parse_activate("AUTO").is_err());
    assert_eq!(parse_bool_str("false").unwrap(), false);
    assert!(parse_bool_str("yes").is_err());
    assert_eq!(parse_batch_size("7").unwrap(), BatchSize::Fixed(7));
    assert!(parse_batch_size("-1").is_err());
    assert_eq!(parse_color_str("0").unwrap(), b"\x1b[38;5;0m".to_vec());
    assert_eq!(parse_color_str("255").unwrap(), b"\x1b[38;5;255m".to_vec());
    assert!(parse_color_str("256").is_err());
    assert!(parse_color_str("#abc").is_err());
    assert!(parse_color_str("#gg0000").is_err());
    assert_eq!(parse_color_str("#FF0000").unwrap(), b"\x1b[38;2;255;0;0m".to_vec());
    assert_eq!(parse_hydra_colors("false").unwrap(), HydraColors::Off);
    assert_eq!(
        parse_hydra_colors(" 2 , 3").unwrap(),
        HydraColors::Palette(vec![b"\x1b[38;5;2m".to_vec(), b"\x1b[38;5;3m".to_vec()])
    );
}

#[test]
fn prefixes_expand_and_replace() {
    let p = HydraPrefixes::default();
    assert_eq!(p.stack_marker(), "HYS-");
    assert_eq!(p.working_copy(), "HYWC-");
    assert_eq!(p.anchors(), vec!["HYB", "HYH", "HYCR"]);
    let r = HydraPrefixReplace {
        prefix: Some("⋔".to_string()),
        base: Some("◆".to_string()),
        ..HydraPrefixReplace::default()
    };
    assert_eq!(p.stack_marker_replace(&r).as_deref(), Some("⋔S-"));
    assert_eq!(p.working_copy_replace(&r).as_deref(), Some("⋔WC-"));
    assert_eq!(
        p.anchors_replace(&r),
        vec![
            Some("◆".to_string()),
            Some("⋔H".to_string()),
            Some("⋔CR".to_string())
        ]
    );
    assert_eq!(p.stack_marker_replace(&HydraPrefixReplace::default()), None);
}

#[test]
fn every_refusal_names_its_kind() {
    assert!(matches!(parse_activate("x"), Err(ValueError::ExpectedMode(v)) if v == b"x"));
    assert!(matches!(parse_pager("x"), Err(ValueError::ExpectedMode(_))));
    assert!(matches!(parse_bool_str("yes"), Err(ValueError::ExpectedBool(v)) if v == b"yes"));
    assert!(matches!(parse_batch_size("abc"), Err(ValueError::ExpectedBatchSize(_))));
    assert!(matches!(parse_batch_size("0"), Err(ValueError::BelowOne(0))));
    assert!(matches!(parse_screen_height(b"abc"), Err(ValueError::ExpectedPositive(_))));
    assert!(matches!(parse_screen_height(b"0"), Err(ValueError::BelowOne(0))));
    assert_eq!(parse_screen_height(b"40").unwrap(), 40);
    assert!(matches!(parse_color_str("#abc"), Err(ValueError::ExpectedHexColor(_))));
    assert!(matches!(parse_color_str("#gg0000"), Err(ValueError::BadHex(_))));
    assert!(matches!(parse_color_str("256"), Err(ValueError::ColorOutOfRange(256))));
    assert!(matches!(parse_color_str("red"), Err(ValueError::ExpectedColor(_))));
    assert!(matches!(parse_hydra_colors("1,,2"), Err(ValueError::EmptyPaletteEntry(v)) if v == b"1,,2"));

    let mut cfg = Config::default();
    assert!(matches!(cfg.apply_cli(args(&["foo"])), Err(ConfigError::UnknownArgument(a)) if a == b"foo"));
    assert!(matches!(
        cfg.apply_cli(args(&["--layout__dash"])),
        Err(ConfigError::MissingValue(m)) if m == b"layout__dash"
    ));
    match cfg.apply_cli(args(&["--templates__a__b=x"])) {
        Err(ConfigError::BadValue { src, key, error: ValueError::TemplateNameNotFlat(k) }) => {
            assert_eq!(src, b"cli");
            assert_eq!(key, b"templates.a.b");
            assert_eq!(k, b"templates.a.b");
        }
        other => panic!("unexpected: {:?}", other),
    }
}

#[test]
fn batch_size_defaults_to_a_fixed_count() {
    assert_eq!(BatchSize::default(), BatchSize::Fixed(DEFAULT_STREAM_BATCH_SIZE));
}

#[test]
fn a_bad_first_hex_pair_is_refused_before_any_character_is_cut() {
    let v = "#zza\u{e9}b";
    assert_eq!(v.len(), 7);
    assert!(!bijjou::config::kv_panics_check("colors.graph-edge", v));
    let mut cfg = Config::default();
    let before = cfg.edge_dim_on.clone();
    match cfg.apply_kv("colors.graph-edge", v, "env") {
        Err(ConfigError::BadValue { error: ValueError::BadHex(_), .. }) => {}
        other => panic!("unexpected: {:?}", other),
    }
    assert_eq!(cfg.edge_dim_on, before);
    assert!(matches!(parse_color_str(v), Err(ValueError::BadHex(_))));
    assert!(matches!(Config::from_toml_checked(&format!("[colors]\ngraph-edge = \"{}\"\n", v)), Some(Err(_))));
    // A good first pair reaches the cut through the character: that panics.
    assert!(bijjou::config::kv_panics_check("colors.graph-edge", "#00a\u{e9}b"));
}

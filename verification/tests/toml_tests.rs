use bijjou::config::{
    Activate, BatchSize, Color, Config, ConfigError, HydraColors, HydraPrefixes, Pager, DEFAULT_DASH,
    DEFAULT_DASH_END, DEFAULT_DASH_START, DEFAULT_DIM_ON, DEFAULT_HYDRA_STACK_HEAD,
    DEFAULT_STREAM_BATCH_SIZE,
};
use bijjou::toml_config::{int_string, join_scalars, TomlItem};

fn args(v: &[&str]) -> Vec<String> {
    v.iter().map(|s| s.to_string()).collect()
}

#[test]
fn toml_parses_section_string_int() {
    let s = r#"
[graph.edges.chars]
horizontal = "X"

[colors]
graph-edge = 200
"#;
    let cfg = Config::from_toml(s).unwrap();
    assert_eq!(cfg.graph_horizontal, "X");
    assert_eq!(cfg.edge_dim_on, b"\x1b[38;5;200m".to_vec());
}

#[test]
fn toml_color_hex_string() {
    let s = "[colors]\ngraph-edge = \"#aabbcc\"\n";
    let cfg = Config::from_toml(s).unwrap();
    assert_eq!(cfg.edge_dim_on, b"\x1b[38;2;170;187;204m".to_vec());
}

#[test]
fn toml_unknown_key_errors() {
    let s = "[graph.edges.chars]\nbogus = \"x\"\n";
    assert!(Config::from_toml(s).is_err());
}

#[test]
fn toml_color_out_of_range_errors() {
    let s = "[colors]\ngraph-edge = 999\n";
    assert!(Config::from_toml(s).is_err());
}

#[test]
fn toml_empty_input_yields_default() {
    let cfg = Config::from_toml("").unwrap();
    assert_eq!(cfg.dash, DEFAULT_DASH);
    assert_eq!(cfg.dim_on, DEFAULT_DIM_ON);
}

#[test]
fn toml_activation_marker_key_is_now_unknown() {
    assert!(Config::from_toml("activation-marker = \"XX\"\n").is_err());
}

#[test]
fn toml_activate_default_is_always() {
    let cfg = Config::from_toml("").unwrap();
    assert_eq!(cfg.activate, Activate::Always);
}

#[test]
fn toml_activate_accepts_each_variant() {
    for (s, want) in [("auto", Activate::Auto), ("always", Activate::Always), ("never", Activate::Never)] {
        let cfg = Config::from_toml(&format!("activate = \"{}\"\n", s)).unwrap();
        assert_eq!(cfg.activate, want);
    }
}

#[test]
fn toml_activate_rejects_bad_value() {
    assert!(Config::from_toml("activate = \"sometimes\"\n").is_err());
}

#[test]
fn toml_pager_default_is_auto() {
    let cfg = Config::from_toml("").unwrap();
    assert_eq!(cfg.pager, Pager::Auto);
}

#[test]
fn toml_pager_accepts_each_variant() {
    for (s, want) in [("auto", Pager::Auto), ("always", Pager::Always), ("never", Pager::Never)] {
        let cfg = Config::from_toml(&format!("pager = \"{}\"\n", s)).unwrap();
        assert_eq!(cfg.pager, want);
    }
}

#[test]
fn toml_pager_rejects_bad_value() {
    assert!(Config::from_toml("pager = \"sometimes\"\n").is_err());
}

#[test]
fn toml_color_default_is_auto() {
    let cfg = Config::from_toml("").unwrap();
    assert_eq!(cfg.color, Color::Auto);
}

#[test]
fn toml_color_accepts_each_variant() {
    for (s, want) in [("auto", Color::Auto), ("always", Color::Always), ("never", Color::Never)] {
        let cfg = Config::from_toml(&format!("[ui]\ncolor = \"{}\"\n", s)).unwrap();
        assert_eq!(cfg.color, want);
    }
}

#[test]
fn toml_color_rejects_bad_value() {
    assert!(Config::from_toml("[ui]\ncolor = \"sometimes\"\n").is_err());
}

#[test]
fn toml_comments_and_blanks_ignored() {
    let s = "# top comment\n\n[layout]\ndash = \"-\"\n# trailing\n";
    let cfg = Config::from_toml(s).unwrap();
    assert_eq!(cfg.dash, "-");
}

#[test]
fn stream_defaults() {
    let cfg = Config::from_toml("").unwrap();
    assert!(cfg.stream_enabled);
    assert_eq!(cfg.stream_batch_size, BatchSize::Fixed(DEFAULT_STREAM_BATCH_SIZE));
}

#[test]
fn stream_toml_section() {
    let s = "[stream]\nenabled = true\nbatch-size = 64\n";
    let cfg = Config::from_toml(s).unwrap();
    assert!(cfg.stream_enabled);
    assert_eq!(cfg.stream_batch_size, BatchSize::Fixed(64));
}

#[test]
fn stream_toml_batch_size_zero_errors() {
    let s = "[stream]\nbatch-size = 0\n";
    assert!(Config::from_toml(s).is_err());
}

#[test]
fn stream_toml_batch_size_negative_errors() {
    let s = "[stream]\nbatch-size = -1\n";
    assert!(Config::from_toml(s).is_err());
}

#[test]
fn stream_toml_batch_size_half_pager() {
    let s = "[stream]\nbatch-size = \"half-pager\"\n";
    let cfg = Config::from_toml(s).unwrap();
    assert_eq!(cfg.stream_batch_size, BatchSize::HalfPager);
}

#[test]
fn layout_dash_defaults() {
    let cfg = Config::from_toml("").unwrap();
    assert_eq!(cfg.dash, DEFAULT_DASH);
    assert_eq!(cfg.dash_start, DEFAULT_DASH_START);
    assert_eq!(cfg.dash_end, DEFAULT_DASH_END);
}

#[test]
fn layout_toml_dash_override() {
    let s = "[layout]\ndash = \".\"\ndash-start = \"<\"\ndash-end = \">\"\n";
    let cfg = Config::from_toml(s).unwrap();
    assert_eq!(cfg.dash, ".");
    assert_eq!(cfg.dash_start, "<");
    assert_eq!(cfg.dash_end, ">");
}

#[test]
fn graph_collapse_defaults_off() {
    assert!(!Config::from_toml("").unwrap().graph_collapse);
}

#[test]
fn graph_collapse_toml_and_cli() {
    let cfg = Config::from_toml("[graph]\ncollapse = true\n").unwrap();
    assert!(cfg.graph_collapse);

    let mut cfg = Config::default();
    cfg.apply_cli(args(&["--graph__collapse=true"])).unwrap();
    assert!(cfg.graph_collapse);
}

#[test]
fn hydra_defaults_are_on_with_hashed_colors() {
    let cfg = Config::from_toml("").unwrap();
    assert!(cfg.hydra_enable);
    assert!(cfg.hydra_top_stack_padding);
    assert_eq!(cfg.hydra_colors, HydraColors::Hash);
    assert!(cfg.hydra_color_bookmarks);
    assert_eq!(cfg.hydra_prefixes, HydraPrefixes::default());
}

#[test]
fn hydra_color_bookmarks_parses_from_toml_and_cli() {
    let cfg = Config::from_toml("[hydra]\ncolor-bookmarks = false\n").unwrap();
    assert!(!cfg.hydra_color_bookmarks);

    let mut cfg = Config::default();
    cfg.apply_cli(args(&["--hydra__color-bookmarks=false"])).unwrap();
    assert!(!cfg.hydra_color_bookmarks);
}

#[test]
fn hydra_prefixes_come_from_toml_and_cli() {
    let cfg = Config::from_toml("[hydra.prefixes]\nprefix = \"ZZ\"\nconflict-resolution = \"RES\"\n").unwrap();
    assert_eq!(cfg.hydra_prefixes.prefix, "ZZ");
    assert_eq!(cfg.hydra_prefixes.conflict_resolution, "RES");
    assert_eq!(cfg.hydra_prefixes.stack_head, DEFAULT_HYDRA_STACK_HEAD);
    assert_eq!(cfg.hydra_prefixes.anchors(), vec!["ZZB", "ZZH", "ZZRES"]);

    let mut cfg = Config::default();
    cfg.apply_cli(args(&["--hydra__prefixes__stack-working-copy=W"])).unwrap();
    assert_eq!(cfg.hydra_prefixes.working_copy(), "HYW-");
}

#[test]
fn hydra_prefix_replacements_come_from_toml_and_cli() {
    let cfg = Config::from_toml("[hydra.prefixes-replace]\nstack-head = \"Ψ\"\n").unwrap();
    let r = &cfg.hydra_prefixes_replace;
    assert_eq!(cfg.hydra_prefixes.stack_marker_replace(r).as_deref(), Some("Ψ"));
    assert_eq!(cfg.hydra_prefixes.working_copy_replace(r), None);
    assert_eq!(cfg.hydra_prefixes.anchors_replace(r), vec![None, None, None]);

    let cfg = Config::from_toml("[hydra.prefixes-replace]\nprefix = \"⋔\"\nbase = \"◆\"\n").unwrap();
    let r = &cfg.hydra_prefixes_replace;
    assert_eq!(cfg.hydra_prefixes.stack_marker_replace(r).as_deref(), Some("⋔S-"));
    assert_eq!(cfg.hydra_prefixes.working_copy_replace(r).as_deref(), Some("⋔WC-"));
    assert_eq!(
        cfg.hydra_prefixes.anchors_replace(r),
        vec![Some("◆".to_string()), Some("⋔H".to_string()), Some("⋔CR".to_string())]
    );

    let mut cfg = Config::default();
    cfg.apply_cli(args(&["--hydra__prefixes-replace__stack-working-copy=ψ"])).unwrap();
    assert_eq!(
        cfg.hydra_prefixes.working_copy_replace(&cfg.hydra_prefixes_replace).as_deref(),
        Some("ψ")
    );
}

#[test]
fn hydra_colors_bool_forms() {
    let cfg = Config::from_toml("[hydra]\ncolors = false\n").unwrap();
    assert_eq!(cfg.hydra_colors, HydraColors::Off);

    let mut cfg = Config::default();
    cfg.apply_cli(args(&["--hydra__colors=true"])).unwrap();
    assert_eq!(cfg.hydra_colors, HydraColors::Hash);
}

#[test]
fn hydra_colors_toml_list_flattens_to_a_palette() {
    let cfg = Config::from_toml("[hydra]\ncolors = [1, \"#aabbcc\"]\n").unwrap();
    assert_eq!(
        cfg.hydra_colors,
        HydraColors::Palette(vec![b"\x1b[38;5;1m".to_vec(), b"\x1b[38;2;170;187;204m".to_vec()])
    );
}

#[test]
fn toml_array_of_non_scalars_errors() {
    assert!(Config::from_toml("[hydra]\ncolors = [[1]]\n").is_err());
}

// ---------------------------------------------------------------------------

#[test]
fn toml_syntax_error_reports_the_parser() {
    assert!(matches!(Config::from_toml("[broken\n"), Err(ConfigError::Toml(_))));
}

#[test]
fn toml_datetime_is_refused_with_its_key() {
    match Config::from_toml("[x]\nwhen = 1979-05-27T07:32:00Z\n") {
        Err(ConfigError::Datetime(k)) => assert_eq!(k, b"x.when"),
        other => panic!("unexpected: {:?}", other.map(|_| ())),
    }
}

#[test]
fn toml_nested_array_is_refused_with_its_key() {
    match Config::from_toml("[hydra]\ncolors = [[1]]\n") {
        Err(ConfigError::NonScalarArray(k)) => assert_eq!(k, b"hydra.colors"),
        other => panic!("unexpected: {:?}", other.map(|_| ())),
    }
}

#[test]
fn toml_unknown_key_names_no_source() {
    match Config::from_toml("bogus = 1\n") {
        Err(ConfigError::UnknownKey { src, key }) => {
            assert!(src.is_empty());
            assert_eq!(key, b"bogus");
        }
        other => panic!("unexpected: {:?}", other.map(|_| ())),
    }
}

#[test]
fn toml_checked_gives_none_for_a_colour_cut_inside_a_character() {
    assert!(Config::from_toml_checked("[colors]\ngraph-edge = \"#aébcd\"\n").is_none());
    assert!(Config::from_toml_checked("[colors]\ngraph-edge = \"#aabbcc\"\n").unwrap().is_ok());
}

#[test]
fn integers_print_in_decimal() {
    assert_eq!(int_string(0), "0");
    assert_eq!(int_string(-1), "-1");
    assert_eq!(int_string(1234567), "1234567");
    assert_eq!(int_string(i64::MIN), i64::MIN.to_string());
}

#[test]
fn scalars_join_with_commas() {
    let items = vec![TomlItem::Int(1), TomlItem::Str("#aabbcc".to_string()), TomlItem::Bool(true)];
    assert_eq!(join_scalars(&items).as_deref(), Some("1,#aabbcc,true"));
    assert_eq!(join_scalars(&vec![TomlItem::Datetime]), None);
    assert_eq!(join_scalars(&vec![]).as_deref(), Some(""));
}

#[test]
fn toml_float_reads_as_its_decimal_text() {
    let cfg = Config::from_toml("[layout]\ndash = 1.5\n").unwrap();
    assert_eq!(cfg.dash, "1.5");
    let cfg = Config::from_toml("[layout]\ndash-start = 2.0\n").unwrap();
    assert_eq!(cfg.dash_start, "2");
    let cfg = Config::from_toml("[layout]\ndash = [1, 2.5, true]\n").unwrap();
    assert_eq!(cfg.dash, "1,2.5,true");
}

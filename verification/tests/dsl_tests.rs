use bijjou::ansi::FG_RESET;
use bijjou::config::{Config, DEFAULT_DIM_ON};
use bijjou::dsl::{
    collect_anchors, parse_nul_oneline, render_row, visible_width, Fields, LeftSide, Node,
    Template, TemplateError,
};
use bijjou::map::ByteMap;

fn fields(pairs: &[(&str, &[u8])]) -> Fields {
    let mut m: Fields = ByteMap::new();
    for (k, v) in pairs {
        m.insert(k.as_bytes().to_vec(), v.to_vec());
    }
    m
}

fn render(t: &Template, f: &Fields, lead: usize, left: LeftSide, anchors: &[usize]) -> Vec<u8> {
    let mut out = Vec::new();
    render_row(t, f, lead, left, anchors, &Config::default(), &mut out);
    out
}

#[test]
fn parse_default_template() {
    let src = " %{elastic_tab(change_id)}\n%{elastic_tab(commit_id)}\n%{elastic_tab(author)}\n%{elastic_tab(timestamp)}\n%{working_copies}\n%{bookmarks}\n%{tags}\n%{description}";
    let t = Template::parse(src).unwrap();
    let elastic_count = t.nodes.iter().filter(|n| matches!(n, Node::ElasticTab(_))).count();
    let field_count = t.nodes.iter().filter(|n| matches!(n, Node::Field(_))).count();
    assert_eq!(elastic_count, 4);
    assert_eq!(field_count, 4);
}

#[test]
fn parse_literal_newline_escape() {
    let t = Template::parse("a\\nb").unwrap();
    match &t.nodes[0] {
        Node::Literal(b) => assert_eq!(b, b"a\nb"),
        _ => panic!("expected literal"),
    }
}

#[test]
fn parse_unterminated_brace_errors() {
    assert!(Template::parse("%{foo").is_err());
}

#[test]
fn parse_unknown_function_errors() {
    assert!(Template::parse("%{wat(foo)}").is_err());
}

#[test]
fn nul_oneline_basic() {
    let bytes = b"change_id\x00abc\x00commit_id\x00123\x1e";
    let m = parse_nul_oneline(bytes).unwrap();
    assert_eq!(m.get(b"change_id").unwrap(), b"abc");
    assert_eq!(m.get(b"commit_id").unwrap(), b"123");
}

#[test]
fn nul_oneline_preserves_raw_esc_and_newlines() {
    let bytes = b"k\x00\x1b[1mhi\nthere\x1b[0m\x1e";
    let m = parse_nul_oneline(bytes).unwrap();
    assert_eq!(m.get(b"k").unwrap(), b"\x1b[1mhi\nthere\x1b[0m");
}

#[test]
fn nul_oneline_empty_value() {
    let bytes = b"labels\x00\x00description\x00hi\x1e";
    let m = parse_nul_oneline(bytes).unwrap();
    assert_eq!(m.get(b"labels").unwrap().as_slice(), b"");
    assert_eq!(m.get(b"description").unwrap(), b"hi");
}

#[test]
fn nul_oneline_root_record() {
    let bytes = b"root\x00zzzzzz root() 000000\x1e";
    let m = parse_nul_oneline(bytes).unwrap();
    assert_eq!(m.len(), 1);
    assert_eq!(m.get(b"root").unwrap(), b"zzzzzz root() 000000");
}

#[test]
fn nul_oneline_rejects_no_terminator() {
    assert!(parse_nul_oneline(b"k\x00v").is_none());
}

#[test]
fn nul_oneline_rejects_odd_parts() {
    assert!(parse_nul_oneline(b"k\x00v\x00orphan\x1e").is_none());
}

#[test]
fn nul_oneline_rejects_empty_key() {
    assert!(parse_nul_oneline(b"\x00v\x1e").is_none());
}

#[test]
fn visible_width_skips_csi() {
    assert_eq!(visible_width(b"\x1b[1mhi\x1b[0m"), 2);
}

#[test]
fn visible_width_multibyte() {
    assert_eq!(visible_width("○".as_bytes()), 1);
}

#[test]
fn trailing_tab_aligns_following_field() {
    let t = Template::parse("%{elastic_tab(change_id)} %{elastic_tab()}%{description}").unwrap();
    let r1 = fields(&[("change_id", b"abc"), ("description", b"short")]);
    let r2 = fields(&[("change_id", b"abcdef"), ("description", b"longer")]);
    let mut anchors: Vec<usize> = Vec::new();
    collect_anchors(&t, &r1, &mut anchors);
    collect_anchors(&t, &r2, &mut anchors);
    assert_eq!(anchors, vec![0, 7]);

    let out = render(&t, &r1, 0, LeftSide::Content, &anchors);
    let s = String::from_utf8_lossy(&out);
    assert!(s.starts_with("abc"));
    assert!(s.ends_with("short"));
    assert!(s.contains('╶') || s.contains('─'), "expected dash pad: {}", s);

    let out2 = render(&t, &r2, 0, LeftSide::Content, &anchors);
    assert_eq!(out2, b"abcdef longer");
}

#[test]
fn argless_tab_equals_argful() {
    let ta = Template::parse("%{elastic_tab(change_id)} %{description}").unwrap();
    let tb = Template::parse("%{elastic_tab()}%{change_id} %{description}").unwrap();
    let rows = vec![
        fields(&[("change_id", b"abc"), ("description", b"short")]),
        fields(&[("change_id", b"abcdef"), ("description", b"longer")]),
    ];
    let mut anchors_a: Vec<usize> = Vec::new();
    let mut anchors_b: Vec<usize> = Vec::new();
    for r in &rows {
        collect_anchors(&ta, r, &mut anchors_a);
        collect_anchors(&tb, r, &mut anchors_b);
    }
    for r in &rows {
        let oa = render(&ta, r, 0, LeftSide::Content, &anchors_a);
        let ob = render(&tb, r, 0, LeftSide::Content, &anchors_b);
        assert_eq!(oa, ob, "argless and argful must match");
    }
}

#[test]
fn empty_field_collapses_preceding_ws() {
    let t = Template::parse("%{change_id} %{labels} %{description}").unwrap();
    let f = fields(&[("change_id", b"abc"), ("labels", b""), ("description", b"hi")]);
    let out = render(&t, &f, 0, LeftSide::Content, &[]);
    assert_eq!(out, b"abc hi");
}

#[test]
fn leading_template_ws_is_preserved() {
    let t = Template::parse(" %{description}").unwrap();
    let f = fields(&[("description", b"hi")]);
    let out = render(&t, &f, 0, LeftSide::Content, &[]);
    assert_eq!(out, b" hi");
}

#[test]
fn empty_first_field_keeps_leading_ws_and_collapses_right() {
    let t = Template::parse(" %{labels} %{description}").unwrap();
    let f = fields(&[("labels", b""), ("description", b"hi")]);
    let out = render(&t, &f, 0, LeftSide::Content, &[]);
    let s = String::from_utf8_lossy(&out);
    assert!(s.ends_with("hi"));
    assert!(s.contains("╶") || s.contains("─"), "expected dash fill: {}", s);
}

#[test]
fn leading_pad_combines_with_template_leading_ws() {
    let t = Template::parse(" %{change_id}").unwrap();
    let f = fields(&[("change_id", b"abc")]);
    let out = render(&t, &f, 2, LeftSide::GraphNode, &[]);
    let s = String::from_utf8_lossy(&out);
    assert!(s.ends_with("abc"));
    assert!(s.contains("╶") || s.contains("─"), "expected dash pad: {}", s);
}

// ---------------------------------------------------------------------------

#[test]
fn missing_field_renders_as_empty() {
    let t = Template::parse("%{change_id} %{nope} %{description}").unwrap();
    let f = fields(&[("change_id", b"abc"), ("description", b"hi")]);
    let out = render(&t, &f, 0, LeftSide::Content, &[]);
    assert_eq!(out, b"abc hi");
}

#[test]
fn three_cell_run_after_content_opens_with_the_start_cap() {
    // Three spaces after content, default layout: the start cap, one dash,
    // and, with `dash-end` empty, a plain space closing the run, all dimmed.
    let t = Template::parse("%{a}   %{b}").unwrap();
    let f = fields(&[("a", b"x"), ("b", b"y")]);
    let out = render(&t, &f, 0, LeftSide::Content, &[]);
    let mut want = b"x".to_vec();
    want.extend_from_slice(&DEFAULT_DIM_ON);
    want.extend_from_slice("╶─ ".as_bytes());
    want.extend_from_slice(&FG_RESET);
    want.extend_from_slice(b"y");
    assert_eq!(out, want);
    assert_eq!(visible_width(&out), 5);
}

#[test]
fn single_space_between_content_stays_a_space() {
    let t = Template::parse("%{a} %{b}").unwrap();
    let f = fields(&[("a", b"x"), ("b", b"y")]);
    assert_eq!(render(&t, &f, 0, LeftSide::Content, &[]), b"x y");
}

#[test]
fn field_values_pass_through_untouched() {
    let t = Template::parse("%{a}").unwrap();
    let f = fields(&[("a", b"\x1b[1m  two  spaces\x1b[0m")]);
    assert_eq!(render(&t, &f, 0, LeftSide::Content, &[]), b"\x1b[1m  two  spaces\x1b[0m");
}

#[test]
fn parse_missing_paren_errors() {
    match Template::parse("%{elastic_tab(x}") {
        Err(TemplateError::MissingParen(_)) => {}
        other => panic!("unexpected: {:?}", other),
    }
}

#[test]
fn parse_unterminated_reports_its_offset() {
    match Template::parse("ab%{foo") {
        Err(TemplateError::Unterminated(2)) => {}
        other => panic!("unexpected: {:?}", other),
    }
}

#[test]
fn parse_unknown_function_reports_its_name() {
    match Template::parse("%{wat(foo)}") {
        Err(TemplateError::UnknownFunction(n)) => assert_eq!(n, b"wat"),
        other => panic!("unexpected: {:?}", other),
    }
}

#[test]
fn parse_other_backslashes_stay_literal() {
    let t = Template::parse("a\\\\b").unwrap();
    match &t.nodes[0] {
        Node::Literal(b) => assert_eq!(b, b"a\\\\b"),
        _ => panic!("expected literal"),
    }
}

#[test]
fn anchors_only_grow() {
    let t = Template::parse("%{elastic_tab(change_id)} %{description}").unwrap();
    let wide = fields(&[("change_id", b"abcdef")]);
    let narrow = fields(&[("change_id", b"a")]);
    let mut anchors: Vec<usize> = Vec::new();
    collect_anchors(&t, &wide, &mut anchors);
    let before = anchors.clone();
    collect_anchors(&t, &narrow, &mut anchors);
    assert_eq!(anchors, before);
}

#[test]
fn nul_oneline_later_key_wins() {
    let m = parse_nul_oneline(b"k\x00one\x00k\x00two\x1e").unwrap();
    assert_eq!(m.len(), 1);
    assert_eq!(m.get(b"k").unwrap(), b"two");
}

#[test]
fn non_ascii_literal_text_is_kept_verbatim() {
    let t = Template::parse("a·b %{x}").unwrap();
    match &t.nodes[0] {
        Node::Literal(b) => assert_eq!(b, &"a·b ".as_bytes().to_vec()),
        other => panic!("unexpected: {:?}", other),
    }
}

#[test]
fn an_elastic_tab_gap_keeps_its_width_with_the_default_layout() {
    let t = Template::parse("%{elastic_tab(change_id)} %{elastic_tab()}%{description}").unwrap();
    let anchors = vec![0usize, 7];
    let short = render(&t, &fields(&[("change_id", b"abc"), ("description", b"short")]), 0, LeftSide::Content, &anchors);
    let longer = render(&t, &fields(&[("change_id", b"abcdef"), ("description", b"longer")]), 0, LeftSide::Content, &anchors);
    let col = |out: &[u8], word: &[u8]| {
        let at = out.windows(word.len()).position(|w| w == word).unwrap();
        visible_width(&out[..at])
    };
    assert_eq!(col(&short, b"short"), 7);
    assert_eq!(col(&longer, b"longer"), 7);
}

#[test]
fn the_root_rows_two_cell_pad_is_two_cells_wide() {
    let c = Config::default();
    let mut out = Vec::new();
    bijjou::dsl::emit_node_pad(2, &c, &mut out);
    assert_eq!(visible_width(&out), 2);
    assert!(out.ends_with(&FG_RESET));
    let mut one = Vec::new();
    bijjou::dsl::emit_node_pad(1, &c, &mut one);
    assert_eq!(one, b" ");
    let mut none = Vec::new();
    bijjou::dsl::emit_node_pad(0, &c, &mut none);
    assert!(none.is_empty());
}

#[test]
fn a_record_ends_at_its_first_rs_and_a_later_key_wins() {
    let a = parse_nul_oneline(b"k\x00one\x00j\x00x\x00k\x00two\x1e").unwrap();
    assert_eq!(a.get(b"k").unwrap(), b"two");
    assert_eq!(a.get(b"j").unwrap(), b"x");
    let b = parse_nul_oneline(b"k\x00v\x1etrailing\x00junk").unwrap();
    assert_eq!(b.get(b"k").unwrap(), b"v");
    assert_eq!(b.len(), 1);
    assert!(parse_nul_oneline(b"k\x00v\x00\xff\x00w\x1e").is_none());
}

use bijjou::rows::process_batch;
use bijjou::config::{Config, BIJJOU_TEMPLATE_NAME_FIELD};
use bijjou::map::ByteMap;
use bijjou::hydra::Walk;
use bijjou::rows::{
    accumulate_metrics, classify_row, compile_templates, emit_classified, rows_measurable_check,
    split_lines, CompiledTemplate, RowKind, TemplateMetrics,
};

fn record(pairs: &[(&str, &str)]) -> Vec<u8> {
    let mut v = Vec::new();
    for (i, (k, val)) in pairs.iter().enumerate() {
        if i > 0 {
            v.push(0);
        }
        v.extend_from_slice(k.as_bytes());
        v.push(0);
        v.extend_from_slice(val.as_bytes());
    }
    v.push(0x1e);
    v
}

fn commit_line(prefix: &str, pairs: &[(&str, &str)]) -> Vec<u8> {
    let mut v = prefix.as_bytes().to_vec();
    v.extend_from_slice(&record(pairs));
    v.push(b'\n');
    v
}

fn templates(pairs: &[(&str, &str)]) -> ByteMap<String> {
    let mut m = ByteMap::new();
    for (k, v) in pairs {
        m.insert(k.as_bytes().to_vec(), v.to_string());
    }
    m
}

// Both passes over a whole input, as the program runs them.
fn render_all(input: &[u8], c: &Config) -> Vec<u8> {
    let compiled = compile_templates(&c.templates).unwrap();
    let lines = split_lines(input);
    let rows: Vec<RowKind> = lines
        .iter()
        .map(|l| {
            let body = if l.last() == Some(&b'\n') { &l[..l.len() - 1] } else { &l[..] };
            classify_row(body, c.graph_collapse)
        })
        .collect();
    let mut walk = Walk::start(c);
    assert!(rows_measurable_check(&rows, &compiled, &walk.topo));
    let mut metrics: ByteMap<TemplateMetrics> = ByteMap::new();
    let mut max_col = 0usize;
    accumulate_metrics(&rows, &compiled, &walk.topo, &mut metrics, &mut max_col);
    let mut out = Vec::new();
    for (l, r) in lines.iter().zip(rows.iter()) {
        assert!(emit_classified(l, r, &mut walk, &compiled, &metrics, max_col, c, &mut out));
    }
    out
}

#[test]
fn plain_line_is_passthrough() {
    match classify_row(b"just text", false) {
        RowKind::Passthrough { parsed: None } => {}
        other => panic!("unexpected: {:?}", other),
    }
}

#[test]
fn graph_line_without_record_is_passthrough_with_boundary() {
    match classify_row("○  abc".as_bytes(), false) {
        RowKind::Passthrough { parsed: Some(p) } => assert_eq!(p.graph_end, "○".len()),
        other => panic!("unexpected: {:?}", other),
    }
}

#[test]
fn root_record_is_the_root_row() {
    let line = commit_line("◆  ", &[("root", "zzzzzz root() 000000")]);
    match classify_row(&line[..line.len() - 1], false) {
        RowKind::Root { graph_end, value } => {
            assert_eq!(graph_end, "◆".len());
            assert_eq!(value, b"zzzzzz root() 000000");
        }
        other => panic!("unexpected: {:?}", other),
    }
}

#[test]
fn commit_record_names_its_template_and_drops_the_name_field() {
    let line = commit_line("○  ", &[(BIJJOU_TEMPLATE_NAME_FIELD, "t"), ("change_id", "abc")]);
    match classify_row(&line[..line.len() - 1], false) {
        RowKind::Commit { template_name, fields, graph_col, .. } => {
            assert_eq!(template_name, Some(b"t".to_vec()));
            assert_eq!(fields.len(), 1);
            assert_eq!(fields.get(b"change_id").unwrap(), b"abc");
            assert_eq!(graph_col, 1);
        }
        other => panic!("unexpected: {:?}", other),
    }
}

#[test]
fn compile_names_the_broken_template() {
    let err = compile_templates(&templates(&[("good", "%{a}"), ("bad", "%{a")])).unwrap_err();
    assert_eq!(err.name, b"bad");
}

#[test]
fn empty_template_compiles_to_graph_only() {
    let m = compile_templates(&templates(&[("none", "")])).unwrap();
    assert!(matches!(m.get(b"none"), Some(CompiledTemplate::Empty)));
}

#[test]
fn split_lines_keeps_every_byte() {
    let input = b"a\nbc\n\nd";
    let lines = split_lines(input);
    assert_eq!(lines, vec![b"a\n".to_vec(), b"bc\n".to_vec(), b"\n".to_vec(), b"d".to_vec()]);
    assert_eq!(lines.concat(), input.to_vec());
}

#[test]
fn rows_render_through_their_template_aligned() {
    let mut c = Config::default();
    c.templates = templates(&[("t", "%{elastic_tab(change_id)} %{description}")]);
    let mut input = commit_line("○  ", &[(BIJJOU_TEMPLATE_NAME_FIELD, "t"), ("change_id", "abcdef"), ("description", "one")]);
    input.extend(commit_line("○  ", &[(BIJJOU_TEMPLATE_NAME_FIELD, "t"), ("change_id", "abcdef"), ("description", "two")]));
    let out = render_all(&input, &c);
    let text = String::from_utf8(out).unwrap();
    let lines: Vec<&str> = text.lines().collect();
    assert_eq!(lines.len(), 2);
    assert!(lines[0].ends_with("abcdef one"), "{:?}", lines[0]);
    assert!(lines[1].ends_with("abcdef two"), "{:?}", lines[1]);
}

#[test]
fn unknown_template_gets_a_notice() {
    let c = Config::default();
    let input = commit_line("○  ", &[(BIJJOU_TEMPLATE_NAME_FIELD, "nope"), ("change_id", "abc")]);
    let out = render_all(&input, &c);
    let text = String::from_utf8_lossy(&out);
    assert!(text.contains("no bijjou template for nope"), "{:?}", text);
}

#[test]
fn empty_template_renders_graph_only() {
    let mut c = Config::default();
    c.templates = templates(&[("none", "")]);
    let input = commit_line("○  ", &[(BIJJOU_TEMPLATE_NAME_FIELD, "none"), ("change_id", "abc")]);
    let out = render_all(&input, &c);
    assert_eq!(out, "○\n".as_bytes());
}

#[test]
fn prose_lines_pass_through() {
    let c = Config::default();
    let out = render_all(b"hello\nworld\n", &c);
    assert_eq!(out, b"hello\nworld\n");
}

#[test]
fn anchors_widen_across_batches() {
    let mut c = Config::default();
    c.templates = templates(&[("t", "%{elastic_tab(a)} %{elastic_tab(b)}")]);
    let compiled = compile_templates(&c.templates).unwrap();
    let mk = |a: &str| {
        let l = commit_line("○  ", &[(BIJJOU_TEMPLATE_NAME_FIELD, "t"), ("a", a), ("b", "x")]);
        classify_row(&l[..l.len() - 1], false)
    };
    let mut metrics: ByteMap<TemplateMetrics> = ByteMap::new();
    let mut max_col = 0usize;
    accumulate_metrics(&vec![mk("abc")], &compiled, &None, &mut metrics, &mut max_col);
    assert_eq!(metrics.get(b"t").unwrap().anchors, vec![0, 4]);
    accumulate_metrics(&vec![mk("a")], &compiled, &None, &mut metrics, &mut max_col);
    assert_eq!(metrics.get(b"t").unwrap().anchors, vec![0, 4]);
    accumulate_metrics(&vec![mk("abcdef")], &compiled, &None, &mut metrics, &mut max_col);
    assert_eq!(metrics.get(b"t").unwrap().anchors, vec![0, 7]);
    assert_eq!(max_col, 1);
}

#[test]
fn process_batch_widens_across_batches_and_renders() {
    let mut c = Config::default();
    c.templates = templates(&[("t", "%{elastic_tab(a)} %{b}")]);
    let compiled = compile_templates(&c.templates).unwrap();
    let mut metrics: ByteMap<TemplateMetrics> = ByteMap::new();
    let mut walk = Walk::start(&c);
    let mut max_col = 0usize;
    let first = vec![commit_line("○  ", &[(BIJJOU_TEMPLATE_NAME_FIELD, "t"), ("a", "abc"), ("b", "x")])];
    let mut out = Vec::new();
    assert!(process_batch(&first, &compiled, &mut metrics, &mut walk, &mut max_col, &c, &mut out).is_some());
    assert!(String::from_utf8_lossy(&out).ends_with("abc x\n"));
    let second = vec![commit_line("○  ", &[(BIJJOU_TEMPLATE_NAME_FIELD, "t"), ("a", "abcdef"), ("b", "y")])];
    let mut out2 = Vec::new();
    assert!(process_batch(&second, &compiled, &mut metrics, &mut walk, &mut max_col, &c, &mut out2).is_some());
    assert!(String::from_utf8_lossy(&out2).ends_with("abcdef y\n"));
    assert_eq!(metrics.get(b"t").unwrap().anchors, vec![0]);
}

// ---------------------------------------------------------------------------
// Hydra markup through the two passes

fn hydra_config(template: &str) -> Config {
    let mut c = Config::default();
    c.templates = templates(&[("t", template)]);
    c
}

fn hydra_row(prefix: &str, bookmarks: &str, d: &str) -> Vec<u8> {
    commit_line(prefix, &[(BIJJOU_TEMPLATE_NAME_FIELD, "t"), ("bookmarks", bookmarks), ("d", d)])
}

fn plain(out: &[u8]) -> String {
    String::from_utf8(bijjou::ansi::strip_sgr(out)).unwrap()
}

#[test]
fn a_stack_marker_node_takes_its_stack_colour() {
    let c = hydra_config("%{bookmarks} %{d}");
    let out = render_all(&hydra_row("○  ", "HYS-delta", "x"), &c);
    let mut want = bijjou::hydra::hash_color(b"delta");
    want.extend_from_slice("○".as_bytes());
    let text = out.windows(want.len()).any(|w| w == &want[..]);
    assert!(text, "{:?}", String::from_utf8_lossy(&out));
}

#[test]
fn rows_without_hydra_bookmarks_render_as_with_hydra_off() {
    let c = hydra_config("%{bookmarks} %{d}");
    let mut off = hydra_config("%{bookmarks} %{d}");
    off.hydra_enable = false;
    let mut input = hydra_row("○  ", "main", "x");
    input.extend(hydra_row("○  ", "", "y"));
    assert_eq!(render_all(&input, &c), render_all(&input, &off));
}

#[test]
fn the_second_stack_marker_gets_the_top_stack_separator() {
    let c = hydra_config("%{bookmarks} %{d}");
    let mut input = hydra_row("○ │  ", "HYS-alpha", "a");
    input.extend(hydra_row("│ ○  ", "HYS-beta", "b"));
    let out = plain(&render_all(&input, &c));
    let lines: Vec<&str> = out.lines().collect();
    assert_eq!(lines.len(), 3, "{:?}", out);
    assert!(lines[0].ends_with("HYS-alpha a"));
    assert!(!lines[1].contains("HYS"), "{:?}", lines[1]);
    assert!(lines[2].ends_with("HYS-beta b"));
    let mut no_pad = c;
    no_pad.hydra_top_stack_padding = false;
    assert_eq!(plain(&render_all(&input, &no_pad)).lines().count(), 2);
}

#[test]
fn a_stand_in_is_measured_at_its_rendered_width() {
    let mut c = hydra_config("%{bookmarks} %{elastic_tab()}|%{d}");
    c.hydra_prefixes_replace.stack_head = Some("stack/".to_string());
    let mut input = hydra_row("○  ", "HYS-delta", "one");
    input.extend(hydra_row("○  ", "mainline-bookmark", "two"));
    let out = plain(&render_all(&input, &c));
    assert!(out.contains("stack/delta"), "{:?}", out);
    let columns: Vec<usize> = out.lines().map(|l| l.chars().position(|ch| ch == '|').unwrap()).collect();
    assert_eq!(columns.len(), 2);
    assert_eq!(columns[0], columns[1], "{:?}", out);
}

#[test]
fn coloured_stand_ins_keep_the_columns_measured() {
    let mut c = hydra_config("%{bookmarks} %{elastic_tab()}|%{d}");
    c.hydra_color_bookmarks = true;
    c.hydra_prefixes_replace.stack_head = Some("Ψ".to_string());
    let mut input = hydra_row("○  ", "\x1b[38;5;5mHYS-delta\x1b[39m main", "one");
    input.extend(hydra_row("○  ", "\x1b[38;5;5mHYWC-delta\x1b[39m", "two"));
    input.extend(hydra_row("○  ", "a-much-longer-plain-bookmark", "three"));
    let rendered = render_all(&input, &c);
    let out = plain(&rendered);
    assert!(out.contains("Ψdelta main"), "{:?}", out);
    let columns: Vec<usize> = out.lines().map(|l| l.chars().position(|ch| ch == '|').unwrap()).collect();
    assert_eq!(columns.len(), 3);
    assert_eq!(columns[0], columns[1], "{:?}", out);
    assert_eq!(columns[0], columns[2], "{:?}", out);
}

#[test]
fn folding_rows_into_anchors_is_order_free_and_idempotent() {
    let t = bijjou::dsl::Template::parse("%{elastic_tab(a)} %{elastic_tab(b)}|").unwrap();
    let r1 = {
        let mut m = ByteMap::new();
        m.insert(b"a".to_vec(), b"xxxx".to_vec());
        m.insert(b"b".to_vec(), b"y".to_vec());
        m
    };
    let r2 = {
        let mut m = ByteMap::new();
        m.insert(b"a".to_vec(), b"x".to_vec());
        m.insert(b"b".to_vec(), b"yyyyyy".to_vec());
        m
    };
    let fold = |rows: &[&bijjou::dsl::Fields]| {
        let mut a: Vec<usize> = Vec::new();
        for r in rows {
            bijjou::dsl::collect_anchors(&t, r, &mut a);
        }
        a
    };
    assert_eq!(fold(&[&r1, &r2]), fold(&[&r2, &r1]));
    assert_eq!(fold(&[&r1, &r1]), fold(&[&r1]));
    assert_eq!(fold(&[&r1, &r2]), vec![0, 5]);
}

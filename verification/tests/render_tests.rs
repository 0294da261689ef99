use bijjou::ansi::FG_RESET;
use bijjou::config::{
    Config, DEFAULT_EDGE_DIM_ON, DEFAULT_GRAPH_BOTTOM_RIGHT, DEFAULT_GRAPH_HORIZONTAL,
    DEFAULT_GRAPH_TEE_RIGHT, DEFAULT_GRAPH_VERTICAL,
};
use bijjou::render::{
    contains_bytes, emit_dim_graph, emit_line, find_boundary, graph_nodes_to_verticals,
    is_edge_char, is_graph_only, map_graph_char, node_cell, strip_trailing_nl, ELISION_CP,
};

fn run_emit(graph: &[u8]) -> Vec<u8> {
    let mut out = Vec::new();
    emit_dim_graph(graph, false, None, &Config::default(), &mut out);
    out
}

fn run_emit_collapsed(graph: &[u8]) -> Vec<u8> {
    let mut out = Vec::new();
    emit_dim_graph(graph, true, None, &Config::default(), &mut out);
    out
}

fn dim(glyph: &str) -> Vec<u8> {
    let mut v = DEFAULT_EDGE_DIM_ON.to_vec();
    v.extend_from_slice(glyph.as_bytes());
    v.extend_from_slice(&FG_RESET);
    v
}

#[test]
fn is_edge_char_includes_box_drawing_and_elision() {
    assert!(is_edge_char(0x2500));
    assert!(is_edge_char(0x2502));
    assert!(is_edge_char(0x256D));
    assert!(is_edge_char(0x257F));
    assert!(is_edge_char(ELISION_CP));
}

#[test]
fn is_edge_char_rejects_nodes_letters_space() {
    for &cp in &[0x40u32, 0x25CB, 0x25CF, 0x25C6, 0xD7, 0x25A1, 0xF28D] {
        assert!(!is_edge_char(cp), "cp={:#x} should not be edge", cp);
    }
    for &cp in &[0x41u32, 0x61, 0x20] {
        assert!(!is_edge_char(cp), "cp={:#x} should not be edge", cp);
    }
}

#[test]
fn map_graph_char_box_drawings() {
    let c = Config::default();
    assert!(map_graph_char(0x2500, &c).is_some());
    assert!(map_graph_char(0x2502, &c).is_some());
    assert!(map_graph_char(0x256D, &c).is_some());
    assert!(map_graph_char(0x2570, &c).is_some());
    assert!(map_graph_char(0x251C, &c).is_some());
    assert!(map_graph_char(0x253C, &c).is_some());
    assert!(map_graph_char(ELISION_CP, &c).is_some());
}

#[test]
fn map_graph_char_unknown_returns_none() {
    assert!(map_graph_char(0x41, &Config::default()).is_none());
}

#[test]
fn boundary_single_node_then_content() {
    let line = b"\xe2\x97\x8b  abc";
    let p = find_boundary(line).expect("expected boundary");
    assert_eq!(p.graph_col, 1);
    assert_eq!(p.graph_end, 3);
    assert_eq!(p.content_start, 5);
}

#[test]
fn boundary_returns_none_when_no_graph() {
    assert!(find_boundary(b"plain text").is_none());
}

#[test]
fn boundary_custom_node_white_square() {
    let line = "□  abc".as_bytes();
    let p = find_boundary(line).expect("expected boundary for custom node");
    assert_eq!(p.graph_col, 1);
    assert_eq!(p.graph_end, "□".len());
    assert_eq!(p.content_start, "□  ".len());
    assert!(!p.last_is_edge, "node, not edge");
}

#[test]
fn boundary_custom_node_pua() {
    let line = "\u{f28d}  abc".as_bytes();
    let p = find_boundary(line).expect("expected boundary for PUA node");
    assert_eq!(p.graph_col, 1);
    assert!(!p.last_is_edge);
}

#[test]
fn boundary_node_followed_by_edge() {
    let line = "●─ abc".as_bytes();
    let p = find_boundary(line).expect("expected boundary");
    assert_eq!(p.graph_col, 2);
    assert!(p.last_is_edge, "last graph glyph is the ─ edge");
}

#[test]
fn boundary_glyph_abutting_letter_is_content_not_node() {
    let line = "□bc".as_bytes();
    assert!(find_boundary(line).is_none());
}

#[test]
fn boundary_custom_node_after_edge_column() {
    let line = "│ □  abc".as_bytes();
    let p = find_boundary(line).expect("expected boundary");
    assert_eq!(p.graph_col, 3);
    assert!(!p.last_is_edge);
}

#[test]
fn boundary_skips_csi_around_graph() {
    let line = b"\x1b[31m\xe2\x97\x8b\x1b[39m  abc";
    let p = find_boundary(line).expect("expected boundary");
    assert_eq!(p.graph_col, 1);
}

#[test]
fn boundary_multi_graph_columns() {
    let line = b"\xe2\x94\x82 \xe2\x94\x82 \xe2\x97\x8b  abc";
    let p = find_boundary(line).expect("expected boundary");
    assert_eq!(p.graph_col, 5);
}

#[test]
fn boundary_requires_at_least_one_graph_char() {
    assert!(find_boundary(b"   abc").is_none());
}

#[test]
fn collapse_drops_column_pads_keeps_glyphs() {
    let mut expected = dim(DEFAULT_GRAPH_TEE_RIGHT);
    expected.extend_from_slice(&dim(DEFAULT_GRAPH_BOTTOM_RIGHT));
    assert_eq!(run_emit_collapsed("├─╯".as_bytes()), expected);
}

#[test]
fn collapse_keeps_horizontals_sitting_in_glyph_cells() {
    let mut expected = dim(DEFAULT_GRAPH_TEE_RIGHT);
    expected.extend_from_slice(&dim(DEFAULT_GRAPH_HORIZONTAL));
    expected.extend_from_slice(&dim(DEFAULT_GRAPH_BOTTOM_RIGHT));
    assert_eq!(run_emit_collapsed("├───╯".as_bytes()), expected);
}

#[test]
fn collapse_keeps_one_cell_per_inactive_column() {
    let mut expected = dim(DEFAULT_GRAPH_VERTICAL);
    expected.extend_from_slice(b" ");
    expected.extend_from_slice("○".as_bytes());
    assert_eq!(run_emit_collapsed("│   ○".as_bytes()), expected);
}

#[test]
fn collapse_keeps_unexpected_glyph_in_a_pad_cell() {
    let mut expected = dim(DEFAULT_GRAPH_VERTICAL);
    expected.extend_from_slice(&dim(DEFAULT_GRAPH_VERTICAL));
    assert_eq!(run_emit_collapsed("││".as_bytes()), expected);
}

#[test]
fn collapse_forwards_ansi_of_dropped_cells() {
    let out = run_emit_collapsed("│\x1b[1m \x1b[22m○".as_bytes());
    let mut expected = dim(DEFAULT_GRAPH_VERTICAL);
    expected.extend_from_slice(b"\x1b[1m\x1b[22m");
    expected.extend_from_slice("○".as_bytes());
    assert_eq!(out, expected);
}

#[test]
fn collapsed_graph_col_counts_kept_cells() {
    let line = "│ │ ○  abc".as_bytes();
    let p = find_boundary(line).expect("expected boundary");
    assert_eq!(p.graph_col, 5);
    assert_eq!(p.graph_col_collapsed, 3);
    assert!(!p.last_is_edge);
    assert!(!p.last_is_edge_collapsed);
}

#[test]
fn collapsed_last_glyph_kind_ignores_dropped_pad() {
    let line = "○─ abc".as_bytes();
    let p = find_boundary(line).expect("expected boundary");
    assert!(p.last_is_edge);
    assert!(!p.last_is_edge_collapsed);
    assert_eq!(p.graph_col_collapsed, 1);
}

#[test]
fn is_graph_only_separates_connector_rows_from_prose() {
    assert!(is_graph_only("├─╯".as_bytes()));
    assert!(is_graph_only("│ │".as_bytes()));
    assert!(is_graph_only("~".as_bytes()));
    assert!(!is_graph_only("fix: draw ─ separators".as_bytes()));
}

#[test]
fn dim_node_chars_pass_through_verbatim() {
    assert_eq!(run_emit(b"\xe2\x97\x8b"), b"\xe2\x97\x8b");
    assert_eq!(run_emit(b"\xe2\x97\x86"), b"\xe2\x97\x86");
    assert_eq!(run_emit(b"@"), b"@");
    let with_ansi = b"\x1b[1m\x1b[38;5;2m@\x1b[0m";
    assert_eq!(run_emit(with_ansi), with_ansi);
}

#[test]
fn dim_custom_node_passthrough() {
    assert_eq!(run_emit("□".as_bytes()), "□".as_bytes());
    assert_eq!(run_emit("\u{f28d}".as_bytes()), "\u{f28d}".as_bytes());
    assert_eq!(run_emit("■".as_bytes()), "■".as_bytes());
}

#[test]
fn dim_box_drawing_gets_edge_dim() {
    let out = run_emit(b"\xe2\x94\x82");
    let mut expected = DEFAULT_EDGE_DIM_ON.to_vec();
    expected.extend_from_slice(DEFAULT_GRAPH_VERTICAL.as_bytes());
    expected.extend_from_slice(&FG_RESET);
    assert_eq!(out, expected);
}

#[test]
fn dim_spaces_passthrough() {
    assert_eq!(run_emit(b"   "), b"   ");
}

// ---------------------------------------------------------------------------

#[test]
fn node_sgr_recolours_the_node_glyph() {
    let mut out = Vec::new();
    emit_dim_graph("○".as_bytes(), false, Some(&b"\x1b[38;5;5m"[..]), &Config::default(), &mut out);
    let mut expected = b"\x1b[38;5;5m".to_vec();
    expected.extend_from_slice("○".as_bytes());
    expected.extend_from_slice(&FG_RESET);
    assert_eq!(out, expected);
}

#[test]
fn dim_graph_appends_to_what_is_there() {
    let mut out = b"xy".to_vec();
    emit_dim_graph(b"   ", false, None, &Config::default(), &mut out);
    assert_eq!(out, b"xy   ");
}

#[test]
fn strip_trailing_nl_splits_off_one_newline() {
    let (body, nl) = strip_trailing_nl(b"abc\n");
    assert_eq!(body, b"abc");
    assert!(nl);
    let (body, nl) = strip_trailing_nl(b"abc");
    assert_eq!(body, b"abc");
    assert!(!nl);
}

#[test]
fn contains_bytes_finds_a_needle() {
    assert!(contains_bytes(b"hello world", b"o w"));
    assert!(!contains_bytes(b"hello", b"hello!"));
    assert!(!contains_bytes(b"hello", b""));
}

#[test]
fn emit_line_restyles_the_graph_and_keeps_the_rest() {
    let line = "│ ○  abc\n".as_bytes();
    let (body, _) = strip_trailing_nl(line);
    let p = find_boundary(body).unwrap();
    let mut out = Vec::new();
    emit_line(line, Some(&p), &Config::default(), &mut out);
    let mut expected = dim(DEFAULT_GRAPH_VERTICAL);
    expected.extend_from_slice(" ○  abc\n".as_bytes());
    assert_eq!(out, expected);
}

#[test]
fn emit_line_passes_prose_through() {
    let mut out = Vec::new();
    emit_line(b"plain text\n", None, &Config::default(), &mut out);
    assert_eq!(out, b"plain text\n");
}

#[test]
fn node_cell_is_the_column_of_the_node() {
    assert_eq!(node_cell("│ ○".as_bytes()), Some(2));
    assert_eq!(node_cell("○".as_bytes()), Some(0));
    assert_eq!(node_cell("│ │".as_bytes()), None);
}

#[test]
fn graph_nodes_become_verticals() {
    let v = graph_nodes_to_verticals("│ ○".as_bytes());
    assert_eq!(v, "│ │".as_bytes());
}

#[test]
fn a_boundary_opens_on_a_space_after_the_graphs_cells() {
    let line = "│ ○ \x1b[1m \x1b[0mcontent".as_bytes();
    let p = find_boundary(line).expect("expected boundary");
    assert_eq!(line[p.graph_end], b' ');
    assert!(p.graph_end < p.content_start && p.content_start < line.len());
    assert_eq!(p.graph_col, 3);
    assert!(p.graph_col_collapsed <= p.graph_col);
    assert_eq!(&line[p.content_start..p.content_start + 4], b"\x1b[0m");
}

#[test]
fn the_restyled_graph_keeps_its_width() {
    let c = Config::default();
    for prefix in ["│ ○ ", "├─╮ ", "│ │   ● ", "~  "] {
        let mut out = Vec::new();
        emit_dim_graph(prefix.as_bytes(), false, None, &c, &mut out);
        assert_eq!(
            bijjou::dsl::visible_width(&out),
            bijjou::dsl::visible_width(prefix.as_bytes()),
            "{:?}",
            String::from_utf8_lossy(&out)
        );
    }
}

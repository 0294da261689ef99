use bijjou::config::{Config, BIJJOU_TEMPLATE_NAME_FIELD, DEFAULT_LOG_ONELINE_NAME};
use bijjou::hydra::{hash_color, Walk};
use bijjou::map::ByteMap;
use bijjou::rows::{compile_templates, process_batch, split_lines, TemplateMetrics};

// A hydra log in the shape `jj log -T log_oneline` gives it: working copies
// up top, the head, two stacks (the second drawn in its own column), the
// base. Bookmarks carry jj's own magenta.
fn hydra_log() -> Vec<u8> {
    let rows: [(&str, &str, &str); 7] = [
        ("○  ", "HYWC-delta", "hydra working copy delta"),
        ("○  ", "HYWC-gamma", "hydra working copy gamma"),
        ("○  ", "HYH", "hydra head"),
        ("○ │  ", "HYS-delta", "hydra stack delta"),
        ("○ │  ", "", "Update A"),
        ("│ ○  ", "HYS-gamma", "hydra stack gamma"),
        ("○  ", "HYB main", "hydra base"),
    ];
    let mut input = Vec::new();
    for (i, (prefix, bookmarks, description)) in rows.iter().enumerate() {
        input.extend_from_slice(prefix.as_bytes());
        let fields: [(&str, String); 6] = [
            (BIJJOU_TEMPLATE_NAME_FIELD, DEFAULT_LOG_ONELINE_NAME.to_string()),
            ("change_id", format!("chg{}", i)),
            ("commit_id", format!("c0{}", i)),
            ("author", "ME".to_string()),
            (
                "bookmarks",
                if bookmarks.is_empty() { String::new() } else { format!("\x1b[38;5;5m{}\x1b[39m", bookmarks) },
            ),
            ("description", description.to_string()),
        ];
        for (j, (k, v)) in fields.iter().enumerate() {
            if j > 0 {
                input.push(0);
            }
            input.extend_from_slice(k.as_bytes());
            input.push(0);
            input.extend_from_slice(v.as_bytes());
        }
        input.extend_from_slice(b"\x1e\n");
    }
    input
}

// The whole log through both passes, colour on, as `bijjou` renders it with
// hydra on and the graph collapsed, then `settings` applied as env would.
fn render(settings: &[(&str, &str)]) -> Vec<u8> {
    let mut c = Config::default();
    let mut vars = vec![
        ("BIJJOU__HYDRA__ENABLE".to_string(), "true".to_string()),
        ("BIJJOU__GRAPH__COLLAPSE".to_string(), "true".to_string()),
    ];
    vars.extend(settings.iter().map(|(k, v)| (k.to_string(), v.to_string())));
    c.apply_env(&vars).unwrap();
    let templates = compile_templates(&c.templates).unwrap();
    let mut metrics: ByteMap<TemplateMetrics> = ByteMap::new();
    let mut walk = Walk::start(&c);
    let mut max_col = 0usize;
    let mut out = Vec::new();
    let lines = split_lines(&hydra_log());
    process_batch(&lines, &templates, &mut metrics, &mut walk, &mut max_col, &c, &mut out).unwrap();
    out
}

fn contains(hay: &[u8], needle: &[u8]) -> bool {
    hay.windows(needle.len()).any(|w| w == needle)
}

fn cat(a: &[u8], b: &str) -> Vec<u8> {
    let mut v = a.to_vec();
    v.extend_from_slice(b.as_bytes());
    v
}

#[test]
fn hydra_disabled() {
    assert_eq!(
        render(&[("BIJJOU__HYDRA__TOP_STACK_PADDING", "false"), ("BIJJOU__HYDRA__COLORS", "false")]),
        render(&[("BIJJOU__HYDRA__ENABLE", "false")]),
    );
}

#[test]
fn hydra_prefixes_rename() {
    assert_eq!(
        render(&[("BIJJOU__HYDRA__PREFIXES__PREFIX", "ZZ")]),
        render(&[("BIJJOU__HYDRA__ENABLE", "false")]),
    );
}

#[test]
fn hydra_plain_bookmarks() {
    let off = render(&[("BIJJOU__HYDRA__COLOR_BOOKMARKS", "false")]);
    let on = render(&[]);
    let delta = b"\x1b[38;2;156;224;92m";
    assert_eq!(hash_color(b"delta"), delta.to_vec());
    assert!(contains(&off, delta), "{:?}", String::from_utf8_lossy(&off));
    assert!(contains(&off, b"\x1b[38;5;5mHYS-delta"), "{:?}", String::from_utf8_lossy(&off));
    assert!(!contains(&off, &cat(delta, "HYS-delta")), "{:?}", String::from_utf8_lossy(&off));
    assert!(contains(&on, &cat(delta, "HYS-delta")), "{:?}", String::from_utf8_lossy(&on));
    assert!(contains(&on, &cat(delta, "HYWC-delta")), "{:?}", String::from_utf8_lossy(&on));
    assert!(contains(&off, b"\x1b[38;5;5mHYH"), "{:?}", String::from_utf8_lossy(&off));
    assert!(contains(&on, b"\x1b[38;5;5mHYH"), "{:?}", String::from_utf8_lossy(&on));
}

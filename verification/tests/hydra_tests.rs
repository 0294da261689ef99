use bijjou::ansi::FG_RESET;
use bijjou::config::{Config, HydraColors, HydraPrefixReplace, HydraPrefixes};
use bijjou::dsl::Fields;
use bijjou::hydra::{
    hash_color, hue_of, index_of, mark_of, replace_names, rewrite_bookmarks, stack_color,
    strip_ansi_into, Mark, Topology, Walk, BOOKMARKS_FIELD, HUE_SPACE, RESERVED_HUES,
};
use bijjou::map::ByteMap;

fn topo() -> Topology {
    Topology::from_prefixes(&HydraPrefixes::default(), &HydraPrefixReplace::default())
}

fn topo_with(r: HydraPrefixReplace) -> Topology {
    Topology::from_prefixes(&HydraPrefixes::default(), &r)
}

fn some(s: &str) -> Option<String> {
    Some(s.to_string())
}

// The row's `bookmarks` field as it renders, names replaced and nothing
// recoloured; `None` when no name was taken over.
fn rewritten(topo: &Topology, bookmarks: &str) -> Option<String> {
    let mut seen = Vec::new();
    let mut out = Vec::new();
    let hit = rewrite_bookmarks(topo, &HydraColors::Hash, false, &mut seen, bookmarks.as_bytes(), &mut out);
    if hit {
        Some(String::from_utf8(out).unwrap())
    } else {
        None
    }
}

#[test]
fn default_prefixes_expand_to_the_stock_bookmark_names() {
    let t = topo();
    assert_eq!(t.stack_prefix, "HYS-");
    assert_eq!(t.wc_prefix, "HYWC-");
    assert_eq!(t.anchors, vec!["HYB", "HYH", "HYCR"]);
}

#[test]
fn renamed_prefixes_expand_to_the_repo_names() {
    let t = Topology::from_prefixes(
        &HydraPrefixes {
            prefix: "ZZ".to_string(),
            stack_head: "ST".to_string(),
            ..HydraPrefixes::default()
        },
        &HydraPrefixReplace::default(),
    );
    assert_eq!(t.stack_prefix, "ZZST-");
    assert_eq!(t.wc_prefix, "ZZWC-");
    assert_eq!(t.anchors, vec!["ZZB", "ZZH", "ZZCR"]);
}

#[test]
fn a_per_bookmark_key_stands_in_for_the_whole_leader() {
    let t = topo_with(HydraPrefixReplace {
        base: some("◆"),
        stack_head: some("Ψ"),
        stack_working_copy: some("ψ"),
        ..HydraPrefixReplace::default()
    });
    assert_eq!(rewritten(&t, "HYS-foo").as_deref(), Some("Ψfoo"));
    assert_eq!(rewritten(&t, "HYWC-foo").as_deref(), Some("ψfoo"));
    assert_eq!(rewritten(&t, "HYB main").as_deref(), Some("◆ main"));
    assert_eq!(rewritten(&t, "HYS-foo*").as_deref(), Some("Ψfoo*"));
    assert_eq!(rewritten(&t, "HYH"), None);
    assert_eq!(rewritten(&t, "HYCR"), None);
}

#[test]
fn prefix_alone_stands_in_for_the_shared_leader() {
    let t = topo_with(HydraPrefixReplace {
        prefix: some("⋔"),
        ..HydraPrefixReplace::default()
    });
    assert_eq!(rewritten(&t, "HYS-foo").as_deref(), Some("⋔S-foo"));
    assert_eq!(rewritten(&t, "HYWC-foo").as_deref(), Some("⋔WC-foo"));
    assert_eq!(rewritten(&t, "HYB").as_deref(), Some("⋔B"));
    assert_eq!(rewritten(&t, "HYH").as_deref(), Some("⋔H"));
    assert_eq!(rewritten(&t, "HYCR").as_deref(), Some("⋔CR"));
}

#[test]
fn a_per_bookmark_key_wins_over_prefix() {
    let t = topo_with(HydraPrefixReplace {
        prefix: some("⋔"),
        stack_head: some("Ψ"),
        ..HydraPrefixReplace::default()
    });
    assert_eq!(rewritten(&t, "HYS-foo").as_deref(), Some("Ψfoo"));
    assert_eq!(rewritten(&t, "HYWC-foo").as_deref(), Some("⋔WC-foo"));
}

#[test]
fn only_this_repos_hydra_bookmarks_are_replaced() {
    let t = topo_with(HydraPrefixReplace {
        prefix: some("⋔"),
        ..HydraPrefixReplace::default()
    });
    assert_eq!(rewritten(&t, "main jjt/foo"), None);
    assert_eq!(rewritten(&t, "HYS-foo@origin"), None);
    assert_eq!(rewritten(&t, "HYS-"), None);
    assert_eq!(rewritten(&t, "main HYS-foo v1").as_deref(), Some("main ⋔S-foo v1"));
}

#[test]
fn a_replaced_name_still_takes_its_stack_colour() {
    let t = topo_with(HydraPrefixReplace {
        stack_head: some("Ψ"),
        ..HydraPrefixReplace::default()
    });
    let mut seen = Vec::new();
    let mut out = Vec::new();
    let hit = rewrite_bookmarks(&t, &HydraColors::Hash, true, &mut seen, b"\x1b[38;5;5mHYS-foo\x1b[39m", &mut out);
    assert!(hit);
    let mut want = stack_color(&HydraColors::Hash, b"foo", 0);
    want.extend_from_slice("Ψfoo".as_bytes());
    want.extend_from_slice(&FG_RESET);
    assert_eq!(out, want);
}

fn mark(bookmarks: &str) -> Mark {
    mark_of(&topo(), bookmarks.as_bytes())
}

#[test]
fn stack_marker_opens_its_stack() {
    assert!(matches!(mark("HYS-delta"), Mark::Stack(n) if n == b"delta"));
    assert!(matches!(mark("HYS-delta*"), Mark::Stack(n) if n == b"delta"));
}

#[test]
fn anchors_are_outside_every_stack() {
    assert!(matches!(mark("HYB main"), Mark::Outside));
    assert!(matches!(mark("HYH"), Mark::Outside));
    assert!(matches!(mark("HYCR"), Mark::Outside));
}

#[test]
fn working_copies_name_their_stack() {
    assert!(matches!(mark("HYWC-delta"), Mark::WorkingCopy(n) if n == b"delta"));
    assert!(matches!(mark("HYWC-delta*"), Mark::WorkingCopy(n) if n == b"delta"));
}

#[test]
fn content_commits_stay_in_the_stack_above_them() {
    assert!(matches!(mark(""), Mark::Inside));
    assert!(matches!(mark("jjt/delta"), Mark::Inside));
}

#[test]
fn remote_refs_are_not_local_bookmarks() {
    assert!(matches!(mark("HYS-delta@origin"), Mark::Inside));
    assert!(matches!(mark("HYWC-delta@origin"), Mark::Inside));
}

fn walk() -> Walk {
    Walk::start(&Config::default())
}

fn bookmarks_fields(bookmarks: &str) -> Fields {
    let mut fields: Fields = ByteMap::new();
    fields.insert(BOOKMARKS_FIELD.as_bytes().to_vec(), bookmarks.as_bytes().to_vec());
    fields
}

// One commit row with `bookmarks` set, under the default config and an empty
// graph prefix, so no padding row is in play.
fn row(walk: &mut Walk, bookmarks: &str) -> (Option<Vec<u8>>, Option<Vec<u8>>) {
    let fields = bookmarks_fields(bookmarks);
    let mut out = Vec::new();
    let markup = walk.markup(&fields, b"", &Config::default(), &mut out);
    (markup.node, markup.bookmarks)
}

fn node(walk: &mut Walk, bookmarks: &str) -> Option<Vec<u8>> {
    row(walk, bookmarks).0
}

fn node_at(walk: &mut Walk, prefix: &str, bookmarks: &str) -> Option<Vec<u8>> {
    let fields = bookmarks_fields(bookmarks);
    let mut out = Vec::new();
    walk.markup(&fields, prefix.as_bytes(), &Config::default(), &mut out).node
}

#[test]
fn a_commit_outside_the_stacks_takes_no_stack_colour() {
    let mut walk = walk();
    let marker = node_at(&mut walk, "● │ ", "HYS-alpha").expect("marker is coloured");
    assert_eq!(node_at(&mut walk, "● │ ", ""), Some(marker));
    assert_eq!(node_at(&mut walk, "│ ● ", ""), None);
    assert_eq!(node_at(&mut walk, "● │ ", ""), None);
}

#[test]
fn a_working_copy_takes_its_stack_colour_without_carrying_it() {
    let mut walk = walk();
    let wc = node(&mut walk, "HYWC-delta").expect("working copy is coloured");
    assert_eq!(node(&mut walk, "HYH"), None);
    assert_eq!(node(&mut walk, ""), None);
    let marker = node(&mut walk, "HYS-delta").expect("stack marker is coloured");
    assert_eq!(marker, wc);
    assert_eq!(node(&mut walk, ""), Some(marker));
}

#[test]
fn hydra_bookmark_names_take_their_stack_colour() {
    let mut walk = walk();
    let (node, bookmarks) = row(&mut walk, "\x1b[38;5;5mHYS-delta\x1b[39m");
    let sgr = node.expect("stack marker is coloured");
    let bookmarks = bookmarks.expect("its name is recoloured too");
    let mut want = sgr.clone();
    want.extend_from_slice(b"HYS-delta");
    want.extend_from_slice(&FG_RESET);
    assert_eq!(bookmarks, want);
    let (_, wc) = row(&mut walk, "HYWC-delta");
    let wc = wc.expect("working copy name is recoloured");
    assert!(wc.starts_with(&sgr), "{:?}", String::from_utf8_lossy(&wc));
}

#[test]
fn bookmarks_outside_the_hydra_keep_jjs_colours() {
    let mut walk = walk();
    assert_eq!(row(&mut walk, "\x1b[38;5;5mHYB main\x1b[39m").1, None);
    assert_eq!(row(&mut walk, "jjt/delta").1, None);
    assert_eq!(row(&mut walk, "HYS-delta@origin").1, None);
}

#[test]
fn a_hydra_bookmark_is_recoloured_beside_its_neighbours() {
    let mut walk = walk();
    let (node, bookmarks) = row(&mut walk, "main HYS-delta* v1");
    let sgr = node.expect("stack marker is coloured");
    let bookmarks = bookmarks.expect("its name is recoloured");
    let mut want = b"main ".to_vec();
    want.extend_from_slice(&sgr);
    want.extend_from_slice(b"HYS-delta*");
    want.extend_from_slice(&FG_RESET);
    want.extend_from_slice(b" v1");
    assert_eq!(bookmarks, want);
}

#[test]
fn palette_index_follows_log_order_then_first_sight() {
    let mut seen = Vec::new();
    assert_eq!(index_of(&mut seen, b"delta"), 0);
    assert_eq!(index_of(&mut seen, b"gamma"), 1);
    assert_eq!(index_of(&mut seen, b"later"), 2);
    assert_eq!(index_of(&mut seen, b"other"), 3);
    assert_eq!(index_of(&mut seen, b"later"), 2);
}

#[test]
fn hashed_colors_are_stable_and_per_name() {
    assert_eq!(hash_color(b"delta"), hash_color(b"delta"));
    assert_ne!(hash_color(b"delta"), hash_color(b"gamma"));
}

#[test]
fn hashed_colors_are_truecolor_sgr() {
    let sgr = hash_color(b"delta");
    let text = String::from_utf8(sgr).unwrap();
    assert!(text.starts_with("\x1b[38;2;"), "{:?}", text);
    assert!(text.ends_with('m'), "{:?}", text);
}

#[test]
fn hue_space_is_the_circle_less_the_reserved_bands() {
    assert_eq!(HUE_SPACE, 360 - 21 - 21);
}

#[test]
fn every_hue_on_offer_clears_the_reserved_bands() {
    let mut last = None;
    for index in 0..HUE_SPACE as u32 {
        let hue = hue_of(index);
        assert!(hue < 360, "index {} left the circle at {}", index, hue);
        for (lo, hi) in RESERVED_HUES {
            assert!(hue < lo || hue > hi, "index {} landed on reserved hue {}", index, hue);
        }
        assert!(last < Some(hue), "index {} went back to {}", index, hue);
        last = Some(hue);
    }
    assert_eq!(hue_of(0), 0);
    assert_eq!(hue_of(HUE_SPACE as u32 - 1), 359);
    assert_eq!(hue_of(104), 104);
    assert_eq!(hue_of(105), 126);
}

#[test]
fn hashed_colors_avoid_the_reserved_hues() {
    for name in ["alpha", "beta", "gamma", "delta", "report", "retry", "green", "pink"] {
        let hue = hue_of_sgr(&hash_color(name.as_bytes()));
        for (lo, hi) in RESERVED_HUES {
            assert!(
                hue + 1.0 < lo as f64 || hue > hi as f64 + 1.0,
                "{} hashed into reserved hue {}",
                name,
                hue
            );
        }
    }
}

// The hue of a `\x1b[38;2;r;g;bm` SGR, back out of the rgb.
fn hue_of_sgr(sgr: &[u8]) -> f64 {
    let text = std::str::from_utf8(sgr).unwrap();
    let body = text
        .strip_prefix("\x1b[38;2;")
        .and_then(|t| t.strip_suffix('m'))
        .expect("truecolor sgr");
    let rgb: Vec<f64> = body.split(';').map(|v| v.parse::<f64>().unwrap() / 255.0).collect();
    let (r, g, b) = (rgb[0], rgb[1], rgb[2]);
    let max = r.max(g).max(b);
    let min = r.min(g).min(b);
    let delta = max - min;
    assert!(delta > 0.0, "grey has no hue: {:?}", rgb);
    let hue = if max == r {
        60.0 * (((g - b) / delta) % 6.0)
    } else if max == g {
        60.0 * ((b - r) / delta + 2.0)
    } else {
        60.0 * ((r - g) / delta + 4.0)
    };
    (hue + 360.0) % 360.0
}

#[test]
fn strip_ansi_leaves_the_bookmark_names() {
    let mut out = Vec::new();
    strip_ansi_into(b"\x1b[38;5;5mHYS-delta\x1b[39m", &mut out);
    assert_eq!(out, b"HYS-delta");
}

// ---------------------------------------------------------------------------

// The colour a name hashes to, worked out in floating point: FNV-1a picks a
// hue, saturation is 0.68 and lightness 0.62, lifted towards 0.70 within 20°
// of 241°.
fn float_hash_color(name: &[u8]) -> Vec<u8> {
    let mut h: u64 = 0xcbf2_9ce4_8422_2325;
    for &b in name {
        h ^= b as u64;
        h = h.wrapping_mul(0x0000_0100_0000_01b3);
    }
    let hue = hue_of((h % HUE_SPACE) as u32);
    let distance = (hue as f64 - 241.0).abs();
    let light = if distance >= 20.0 { 0.62 } else { 0.62 + (0.70 - 0.62) * (20.0 - distance) / 20.0 };
    let sat = 0.68;
    let chroma = (1.0 - (2.0 * light - 1.0f64).abs()) * sat;
    let second = chroma * (1.0 - ((hue as f64 / 60.0) % 2.0 - 1.0).abs());
    let (r, g, b) = match hue / 60 {
        0 => (chroma, second, 0.0),
        1 => (second, chroma, 0.0),
        2 => (0.0, chroma, second),
        3 => (0.0, second, chroma),
        4 => (second, 0.0, chroma),
        _ => (chroma, 0.0, second),
    };
    let base = light - chroma / 2.0;
    let byte = |v: f64| ((v + base) * 255.0).round().clamp(0.0, 255.0) as u8;
    format!("\x1b[38;2;{};{};{}m", byte(r), byte(g), byte(b)).into_bytes()
}

#[test]
fn hashed_colors_match_the_hsl_formula() {
    for i in 0..3000u32 {
        let name = format!("stack-{}", i);
        assert_eq!(
            hash_color(name.as_bytes()),
            float_hash_color(name.as_bytes()),
            "{}",
            name
        );
    }
}

#[test]
fn delta_hashes_to_a_fixed_colour() {
    assert_eq!(hash_color(b"delta"), float_hash_color(b"delta"));
}

#[test]
fn palette_colours_cycle_by_index() {
    let colors = HydraColors::Palette(vec![b"A".to_vec(), b"B".to_vec()]);
    assert_eq!(stack_color(&colors, b"x", 0), b"A");
    assert_eq!(stack_color(&colors, b"x", 1), b"B");
    assert_eq!(stack_color(&colors, b"x", 2), b"A");
}

#[test]
fn colours_off_give_no_sgr() {
    assert_eq!(stack_color(&HydraColors::Off, b"x", 3), b"");
}

#[test]
fn index_of_is_stable_for_names_already_seen() {
    let mut seen = Vec::new();
    let a = index_of(&mut seen, b"a");
    index_of(&mut seen, b"b");
    index_of(&mut seen, b"c");
    assert_eq!(index_of(&mut seen, b"a"), a);
    assert_eq!(seen.len(), 3);
}

#[test]
fn replace_names_rewrites_the_bookmarks_field() {
    let t = topo_with(HydraPrefixReplace {
        prefix: some("⋔"),
        ..HydraPrefixReplace::default()
    });
    let mut out = Vec::new();
    assert!(replace_names(&Some(t), &bookmarks_fields("HYS-foo"), &mut out));
    assert_eq!(out, "⋔S-foo".as_bytes());
    let mut out2 = Vec::new();
    assert!(!replace_names(&None, &bookmarks_fields("HYS-foo"), &mut out2));
}

#[test]
fn hydra_off_leaves_every_row_alone() {
    let mut c = Config::default();
    c.hydra_enable = false;
    let mut walk = Walk::start(&c);
    let fields = bookmarks_fields("HYS-delta");
    let mut out = Vec::new();
    let m = walk.markup(&fields, b"", &c, &mut out);
    assert!(m.node.is_none());
    assert!(m.bookmarks.is_none());
}

#[test]
fn a_stack_name_that_is_not_utf8_reads_lossily() {
    let t = topo();
    assert_eq!(t.stack_of(b"HYS-ab\xffcd"), Some("ab\u{FFFD}cd".as_bytes().to_vec()));
    assert_eq!(t.stack_of("HYWC-ünï".as_bytes()), Some("ünï".as_bytes().to_vec()));
    assert_eq!(t.stack_of(b"HYS-x@origin"), None);
}

#[test]
fn a_working_copy_below_its_stack_takes_the_stacks_palette_colour() {
    let mut c = Config::default();
    c.hydra_colors = HydraColors::Palette(vec![b"\x1b[31m".to_vec(), b"\x1b[32m".to_vec(), b"\x1b[33m".to_vec()]);
    let mut walk = Walk::start(&c);
    let mut step = |walk: &mut Walk, bookmarks: &str| {
        let mut out = Vec::new();
        walk.markup(&bookmarks_fields(bookmarks), b"", &c, &mut out).node
    };
    let alpha = step(&mut walk, "HYS-alpha").expect("first stack is coloured");
    assert_eq!(alpha, b"\x1b[31m".to_vec());
    assert_eq!(step(&mut walk, ""), Some(alpha.clone()));
    let beta = step(&mut walk, "HYS-beta").expect("second stack is coloured");
    assert_eq!(beta, b"\x1b[32m".to_vec());
    assert_eq!(step(&mut walk, "HYWC-gamma"), Some(b"\x1b[33m".to_vec()));
    assert_eq!(step(&mut walk, "HYWC-alpha"), Some(alpha));
    assert_eq!(step(&mut walk, "HYWC-beta"), Some(beta));
}

#[test]
fn replace_names_leaves_its_buffer_alone_when_nothing_is_replaced() {
    let t = topo_with(HydraPrefixReplace {
        prefix: some("⋔"),
        ..HydraPrefixReplace::default()
    });
    let mut out = b"kept".to_vec();
    assert!(!replace_names(&Some(t), &bookmarks_fields("main jjt/foo"), &mut out));
    assert_eq!(out, b"kept");
    let mut out2 = b"kept".to_vec();
    assert!(!replace_names(&Some(topo()), &bookmarks_fields("HYS-foo"), &mut out2));
    assert_eq!(out2, b"kept");
    let mut out3 = b"kept".to_vec();
    assert!(!replace_names(&None, &bookmarks_fields("HYS-foo"), &mut out3));
    assert_eq!(out3, b"kept");
}

#[test]
fn a_rewrite_that_takes_nothing_over_copies_the_field() {
    let t = topo_with(HydraPrefixReplace {
        prefix: some("⋔"),
        ..HydraPrefixReplace::default()
    });
    for raw in ["main jjt/foo", "HYS-foo@origin", "HYS-", "\x1b[1mmain\x1b[0m  x"] {
        let mut seen = Vec::new();
        let mut out = b"junk".to_vec();
        assert!(!rewrite_bookmarks(&t, &HydraColors::Hash, true, &mut seen, raw.as_bytes(), &mut out));
        assert_eq!(out, raw.as_bytes());
    }
    assert_eq!(rewritten(&t, "main HYS-foo v1").as_deref(), Some("main ⋔S-foo v1"));
}

#[test]
fn rows_with_only_anchor_bookmarks_get_no_markup() {
    let mut walk = walk();
    for bookmarks in ["HYB main", "HYH", "HYCR", "", "feature"] {
        let (node, bm) = row(&mut walk, bookmarks);
        assert_eq!(node, None);
        assert_eq!(bm, None);
    }
}

// The same colour, worked out as the floating-point HSL conversion writes
// it step by step: lightness ramp, then chroma, second component and base.
fn hsl_lightness(hue: u32) -> f64 {
    let distance = (hue as f64 - 241.0).abs();
    if distance >= 20.0 { 0.62 } else { 0.62 + (0.70 - 0.62) * (20.0 - distance) / 20.0 }
}

fn hsl_bytes(hue: u32, sat: f64, light: f64) -> (u8, u8, u8) {
    let chroma = (1.0 - (2.0 * light - 1.0).abs()) * sat;
    let sector = hue / 60;
    let second = chroma * (1.0 - ((hue as f64 / 60.0) % 2.0 - 1.0).abs());
    let (r, g, b) = match sector {
        0 => (chroma, second, 0.0),
        1 => (second, chroma, 0.0),
        2 => (0.0, chroma, second),
        3 => (0.0, second, chroma),
        4 => (second, 0.0, chroma),
        _ => (chroma, 0.0, second),
    };
    let base = light - chroma / 2.0;
    let byte = |v: f64| ((v + base) * 255.0).round().clamp(0.0, 255.0) as u8;
    (byte(r), byte(g), byte(b))
}

fn fnv_slot(name: &[u8]) -> u64 {
    let mut h: u64 = 0xcbf2_9ce4_8422_2325;
    for &b in name {
        h ^= b as u64;
        h = h.wrapping_mul(0x0000_0100_0000_01b3);
    }
    h % HUE_SPACE
}

#[test]
fn hashed_colours_agree_with_floating_point_hsl_on_every_hue() {
    let mut seen = std::collections::BTreeSet::new();
    let mut k = 0u32;
    while seen.len() < HUE_SPACE as usize && k < 1_000_000 {
        let name = format!("n{}", k);
        let slot = fnv_slot(name.as_bytes());
        if seen.insert(slot) {
            let hue = hue_of(slot as u32);
            let (r, g, b) = hsl_bytes(hue, 0.68, hsl_lightness(hue));
            let want = format!("\x1b[38;2;{};{};{}m", r, g, b).into_bytes();
            assert_eq!(hash_color(name.as_bytes()), want, "{} (hue {})", name, hue);
        }
        k += 1;
    }
    assert_eq!(seen.len(), HUE_SPACE as usize);
    for name in ["alpha", "beta", "delta", "main", "bench-criterion", "cli-subcommands", "tokio-runtime-upgrade"] {
        let hue = hue_of(fnv_slot(name.as_bytes()) as u32);
        let (r, g, b) = hsl_bytes(hue, 0.68, hsl_lightness(hue));
        assert_eq!(hash_color(name.as_bytes()), format!("\x1b[38;2;{};{};{}m", r, g, b).into_bytes(), "{}", name);
    }
}

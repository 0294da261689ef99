use vstd::prelude::*;
use vstd::string::StringSliceAdditionalSpecFns;
use crate::ansi::{csi_end, csi_scan, is_csi_final, is_csi_start, decode_at, lemma_csi_scan_bounds, fg_reset};
use crate::config::{truecolor, color256, color_of, palette_from, hydra_colors_of, HydraColorsView, ConfigView};
use crate::dsl::{
    width_from, width, field_value, natural_col, tab_cols, NodeView, SegView, LeftSide, row_state,
    row_bytes, rule2, emit_from, pad_bytes, pad_cells, pad_cell, pad_run_end, pad_run_total, is_pad,
    lit_segs_from, run_end, glyph, caps_enabled, end_glyph,
};
use crate::rows::{measured, with_bookmarks, row_out, RowKind, CompiledTemplate, TemplateMetrics};
use crate::hydra::{
    ascii_ws, token_from, strip_ansi_from, stack_color_spec, TopoView, rewrite_from, ws_run_end,
    replacement_spec, anchor_index, strip_star, WalkView, markup_step, bookmarks_of, renames,
    names_replaced, BOOKMARKS_FIELD,
};
use crate::text::decimal;
use crate::render::{
    dim_from, dim_graph, DimState, RunState, RightSide, flush_out, flushed, drop_spaces, run_dashes,
    edge_bytes, node_bytes, graph_glyph, skip_csis, edge_cp,
};
use crate::ansi::{filtered, filtered_from};

verus! {

// ---------------------------------------------------------------------------
// Text that reads as whole units

/// Bytes a UTF-8 sequence takes, read off its lead byte; a stray
/// continuation byte stands alone.
pub open spec fn lead_len(b: u8) -> int {
    if b < 0xc0 {
        1
    } else if b < 0xe0 {
        2
    } else if b < 0xf0 {
        3
    } else {
        4
    }
}

pub open spec fn is_cont(b: u8) -> bool {
    0x80 <= b < 0xc0
}

/// `s[i..]` reads as whole units: every CSI escape closed by its final byte
/// and free of whitespace, every other character complete (its lead byte
/// followed by continuation bytes) and not a lone ESC.
pub open spec fn text_wf_from(s: Seq<u8>, i: int) -> bool
    decreases s.len() - i,
{
    if i < 0 || i > s.len() {
        false
    } else if i == s.len() {
        true
    } else {
        match csi_end(s, i) {
            Some(e) => if i + 3 <= e <= s.len() {
                &&& is_csi_final(s[e - 1])
                &&& forall|j: int| i <= j < e ==> !ascii_ws(#[trigger] s[j])
                &&& text_wf_from(s, e)
            } else {
                false
            },
            None => {
                let k = lead_len(s[i]);
                if i + k <= s.len() {
                    &&& s[i] != 0x1b
                    &&& forall|j: int| i < j < i + k ==> is_cont(#[trigger] s[j])
                    &&& text_wf_from(s, i + k)
                } else {
                    false
                }
            },
        }
    }
}

pub open spec fn text_wf(s: Seq<u8>) -> bool {
    text_wf_from(s, 0)
}

proof fn lemma_decode_lead(s: Seq<u8>, i: int)
    requires
        0 <= i < s.len(),
        i + lead_len(s[i]) <= s.len(),
    ensures
        decode_at(s, i).1 == lead_len(s[i]),
{
}

/// A scan that meets its final byte inside `a` meets it there in `a + b`.
proof fn lemma_scan_prefix(a: Seq<u8>, b: Seq<u8>, j: int)
    requires
        0 <= j < a.len(),
        j < csi_scan(a, j) <= a.len(),
        is_csi_final(a[csi_scan(a, j) - 1]),
    ensures
        csi_scan(a + b, j) == csi_scan(a, j),
    decreases a.len() - j,
{
    if !is_csi_final(a[j]) {
        lemma_csi_scan_bounds(a, j + 1);
        lemma_scan_prefix(a, b, j + 1);
    }
}

proof fn lemma_scan_shift(a: Seq<u8>, b: Seq<u8>, j: int)
    requires
        0 <= j <= b.len(),
    ensures
        csi_scan(a + b, a.len() + j) == a.len() + csi_scan(b, j),
    decreases b.len() - j,
{
    if j < b.len() {
        assert((a + b)[a.len() + j] == b[j]);
        if !is_csi_final(b[j]) {
            lemma_scan_shift(a, b, j + 1);
        }
    }
}

/// Past `a`, `a + b` reads as `b` does.
pub proof fn lemma_width_shift(a: Seq<u8>, b: Seq<u8>, j: int)
    requires
        0 <= j,
    ensures
        width_from(a + b, a.len() + j) == width_from(b, j),
        text_wf_from(a + b, a.len() + j) == text_wf_from(b, j),
    decreases b.len() - j,
{
    let s = a + b;
    let i = a.len() + j;
    if j < b.len() {
        assert(s[i] == b[j]);
        if j + 1 < b.len() {
            assert(s[i + 1] == b[j + 1]);
        }
        assert(is_csi_start(s, i) == is_csi_start(b, j));
        if is_csi_start(b, j) {
            lemma_scan_shift(a, b, j + 2);
            lemma_csi_scan_bounds(b, j + 2);
            let e = csi_scan(b, j + 2);
            assert(csi_end(s, i) == Some(e + a.len()));
            lemma_width_shift(a, b, e);
            if j + 3 <= e <= b.len() {
                assert(s[e + a.len() - 1] == b[e - 1]);
                assert((forall|m: int| i <= m < e + a.len() ==> !ascii_ws(#[trigger] s[m])) <==> (forall|
                    m: int,
                | j <= m < e ==> !ascii_ws(#[trigger] b[m]))) by {
                    if forall|m: int| i <= m < e + a.len() ==> !ascii_ws(#[trigger] s[m]) {
                        assert forall|m: int| j <= m < e implies !ascii_ws(#[trigger] b[m]) by {
                            assert(s[a.len() + m] == b[m]);
                        }
                    }
                    if forall|m: int| j <= m < e ==> !ascii_ws(#[trigger] b[m]) {
                        assert forall|m: int| i <= m < e + a.len() implies !ascii_ws(#[trigger] s[m]) by {
                            assert(s[m] == b[m - a.len()]);
                        }
                    }
                }
            }
        } else {
            assert(csi_end(s, i) is None);
            let k = lead_len(b[j]);
            assert(decode_at(s, i) == decode_at(b, j)) by {
                if j + 1 < b.len() {
                    assert(s[i + 1] == b[j + 1]);
                }
                if j + 2 < b.len() {
                    assert(s[i + 2] == b[j + 2]);
                }
                if j + 3 < b.len() {
                    assert(s[i + 3] == b[j + 3]);
                }
            }
            crate::ansi::lemma_decode_at_len(b, j);
            lemma_width_shift(a, b, j + decode_at(b, j).1);
            if j + k <= b.len() {
                lemma_width_shift(a, b, j + k);
                assert((forall|m: int| i < m < i + k ==> is_cont(#[trigger] s[m])) <==> (forall|m: int|
                    j < m < j + k ==> is_cont(#[trigger] b[m]))) by {
                    if forall|m: int| i < m < i + k ==> is_cont(#[trigger] s[m]) {
                        assert forall|m: int| j < m < j + k implies is_cont(#[trigger] b[m]) by {
                            assert(s[a.len() + m] == b[m]);
                        }
                    }
                    if forall|m: int| j < m < j + k ==> is_cont(#[trigger] b[m]) {
                        assert forall|m: int| i < m < i + k implies is_cont(#[trigger] s[m]) by {
                            assert(s[m] == b[m - a.len()]);
                        }
                    }
                }
            }
        }
    }
}

/// Text that reads as whole units can be followed by anything: its width
/// adds to what follows, and so does its well-formedness.
pub proof fn lemma_concat_width(a: Seq<u8>, b: Seq<u8>, i: int)
    requires
        text_wf_from(a, i),
    ensures
        width_from(a + b, i) == width_from(a, i) + width_from(b, 0),
        text_wf_from(a + b, i) == text_wf_from(b, 0),
    decreases a.len() - i,
{
    let s = a + b;
    if i == a.len() {
        lemma_width_shift(a, b, 0);
    } else {
        assert(s[i] == a[i]);
        match csi_end(a, i) {
            Some(e) => {
                assert(s[i + 1] == a[i + 1]);
                lemma_csi_scan_bounds(a, i + 2);
                assert(s[e - 1] == a[e - 1]);
                lemma_scan_prefix(a, b, i + 2);
                assert(csi_end(s, i) == Some(e));
                lemma_concat_width(a, b, e);
                assert((forall|m: int| i <= m < e ==> !ascii_ws(#[trigger] s[m])) <==> (forall|m: int|
                    i <= m < e ==> !ascii_ws(#[trigger] a[m]))) by {
                    assert forall|m: int| i <= m < e implies s[m] == a[m] by {}
                }
            },
            None => {
                let k = lead_len(a[i]);
                assert(!is_csi_start(s, i));
                lemma_decode_lead(a, i);
                lemma_decode_lead(s, i);
                lemma_concat_width(a, b, i + k);
                assert((forall|m: int| i < m < i + k ==> is_cont(#[trigger] s[m])) <==> (forall|m: int|
                    i < m < i + k ==> is_cont(#[trigger] a[m]))) by {
                    assert forall|m: int| i < m < i + k implies s[m] == a[m] by {}
                }
            },
        }
    }
}

pub proof fn lemma_concat(a: Seq<u8>, b: Seq<u8>)
    requires
        text_wf(a),
        text_wf(b),
    ensures
        text_wf(a + b),
        width(a + b) == width(a) + width(b),
{
    lemma_concat_width(a, b, 0);
}

/// No ESC byte anywhere.
pub open spec fn no_esc(s: Seq<u8>) -> bool {
    forall|j: int| 0 <= j < s.len() ==> #[trigger] s[j] != 0x1b
}

/// Well-formed UTF-8 without an ESC reads as whole units.
pub proof fn lemma_valid_text(s: Seq<u8>)
    requires
        vstd::utf8::valid_utf8(s),
        no_esc(s),
    ensures
        text_wf(s),
    decreases s.len(),
{
    if s.len() > 0 {
        let w = vstd::utf8::length_of_first_scalar(s);
        assert(lead_len(s[0]) == w);
        assert(csi_end(s, 0) is None);
        let rest = s.subrange(w, s.len() as int);
        assert(rest == vstd::utf8::pop_first_scalar(s));
        assert(rest.len() < s.len());
        lemma_valid_text(rest);
        assert(s =~= s.subrange(0, w) + rest);
        lemma_width_shift(s.subrange(0, w), rest, 0);
        assert forall|j: int| 0 < j < w implies is_cont(#[trigger] s[j]) by {}
    }
}

// ---------------------------------------------------------------------------
// Prefixes

/// Read step by step from `i`, `s` comes to `g` exactly, every escape on
/// the way closed by its final byte.
pub open spec fn lands(s: Seq<u8>, i: int, g: int) -> bool
    decreases g - i,
{
    if i == g {
        0 <= i <= s.len()
    } else if i < 0 || i > g || g > s.len() {
        false
    } else {
        match csi_end(s, i) {
            Some(e) => i + 3 <= e <= g && is_csi_final(s[e - 1]) && lands(s, e, g),
            None => {
                let n = decode_at(s, i).1;
                1 <= n && i + n <= g && lands(s, i + n, g)
            },
        }
    }
}

/// A scan that stops short of the end stopped on a final byte.
pub proof fn lemma_scan_final(s: Seq<u8>, j: int)
    requires
        0 <= j,
        csi_scan(s, j) < s.len(),
    ensures
        j < csi_scan(s, j),
        is_csi_final(s[csi_scan(s, j) - 1]),
    decreases s.len() - j,
{
    if j < s.len() && !is_csi_final(s[j]) {
        lemma_scan_final(s, j + 1);
    }
}

pub proof fn lemma_lands_trans(s: Seq<u8>, i: int, k: int, g: int)
    requires
        lands(s, i, k),
        lands(s, k, g),
    ensures
        lands(s, i, g),
    decreases k - i,
{
    if i < k {
        match csi_end(s, i) {
            Some(e) => lemma_lands_trans(s, e, k, g),
            None => lemma_lands_trans(s, i + decode_at(s, i).1, k, g),
        }
    }
}

/// The cells of a prefix the line reads into exactly: the prefix's width
/// and the rest's add up to the line's.
pub proof fn lemma_prefix_width(s: Seq<u8>, i: int, g: int)
    requires
        lands(s, i, g),
    ensures
        width_from(s.subrange(0, g), i) + width_from(s, g) == width_from(s, i),
    decreases g - i,
{
    let p = s.subrange(0, g);
    if i < g {
        assert(p[i] == s[i]);
        match csi_end(s, i) {
            Some(e) => {
                assert(p[i + 1] == s[i + 1]);
                lemma_scan_window(s, 0, g, i + 2);
                assert(csi_end(p, i) == Some(e));
                lemma_prefix_width(s, e, g);
            },
            None => {
                let n = decode_at(s, i).1;
                if i + 1 < g {
                    assert(p[i + 1] == s[i + 1]);
                }
                assert(csi_end(p, i) is None);
                if i + 2 < g {
                    assert(p[i + 2] == s[i + 2]);
                }
                if i + 3 < g {
                    assert(p[i + 3] == s[i + 3]);
                }
                assert(decode_at(p, i).1 == n);
                lemma_prefix_width(s, i + n, g);
            },
        }
    }
}

// ---------------------------------------------------------------------------
// Escapes

/// A single CSI escape closed by its final byte.
pub open spec fn is_escape(s: Seq<u8>) -> bool {
    &&& s.len() >= 3
    &&& s[0] == 0x1b
    &&& s[1] == 0x5b
    &&& is_csi_final(s[s.len() - 1])
    &&& forall|j: int| 2 <= j < s.len() - 1 ==> !is_csi_final(#[trigger] s[j])
    &&& forall|j: int| 0 <= j < s.len() ==> !ascii_ws(#[trigger] s[j])
}

proof fn lemma_scan_to_final(s: Seq<u8>, j: int, f: int)
    requires
        0 <= j <= f < s.len(),
        is_csi_final(s[f]),
        forall|m: int| j <= m < f ==> !is_csi_final(#[trigger] s[m]),
    ensures
        csi_scan(s, j) == f + 1,
    decreases f - j,
{
    if j < f {
        lemma_scan_to_final(s, j + 1, f);
    }
}

/// Before the byte that ends a scan, none is final.
proof fn lemma_scan_nonfinal(s: Seq<u8>, j: int)
    requires
        0 <= j,
    ensures
        forall|m: int| j <= m < csi_scan(s, j) - 1 ==> !is_csi_final(#[trigger] s[m]),
    decreases s.len() - j,
{
    if j < s.len() && !is_csi_final(s[j]) {
        lemma_scan_nonfinal(s, j + 1);
    }
}

/// An escape takes no cell and reads as a whole unit.
pub proof fn lemma_escape(s: Seq<u8>)
    requires
        is_escape(s),
    ensures
        text_wf(s),
        width(s) == 0,
{
    lemma_scan_to_final(s, 2, s.len() - 1);
    assert(csi_end(s, 0) == Some(s.len() as int));
    assert(text_wf_from(s, s.len() as int));
    assert(width_from(s, s.len() as int) == 0);
    assert(text_wf_from(s, 0));
    assert(width_from(s, 0) == 0);
}

/// Parameter bytes: digits, `;` and the rest of `0x30..=0x3f`.
pub open spec fn all_params(s: Seq<u8>) -> bool {
    forall|j: int| 0 <= j < s.len() ==> 0x30 <= #[trigger] s[j] <= 0x3f
}

proof fn lemma_params_escape(p: Seq<u8>, f: u8)
    requires
        all_params(p),
        is_csi_final(f),
    ensures
        is_escape(seq![0x1bu8, 0x5bu8] + p + seq![f]),
{
    let s = seq![0x1bu8, 0x5bu8] + p + seq![f];
    assert forall|j: int| 2 <= j < s.len() - 1 implies !is_csi_final(#[trigger] s[j]) by {
        assert(s[j] == p[j - 2]);
    }
    assert forall|j: int| 0 <= j < s.len() implies !ascii_ws(#[trigger] s[j]) by {
        if 2 <= j < s.len() - 1 {
            assert(s[j] == p[j - 2]);
        }
    }
}

proof fn lemma_params_concat(a: Seq<u8>, b: Seq<u8>)
    requires
        all_params(a),
        all_params(b),
    ensures
        all_params(a + b),
{
    assert forall|j: int| 0 <= j < (a + b).len() implies 0x30 <= #[trigger] (a + b)[j] <= 0x3f by {
        if j < a.len() {
            assert((a + b)[j] == a[j]);
        } else {
            assert((a + b)[j] == b[j - a.len()]);
        }
    }
}

proof fn lemma_decimal_params(n: nat)
    ensures
        all_params(decimal(n)),
    decreases n,
{
    if n >= 10 {
        lemma_decimal_params(n / 10);
        let d = decimal(n / 10);
        assert forall|j: int| 0 <= j < decimal(n).len() implies 0x30 <= #[trigger] decimal(n)[j] <= 0x3f by {
            if j < d.len() {
                assert(decimal(n)[j] == d[j]);
            }
        }
    }
}

pub proof fn lemma_truecolor_escape(r: int, g: int, b: int)
    ensures
        is_escape(truecolor(r, g, b)),
{
    let head: Seq<u8> = seq![51u8, 56u8, 59u8, 50u8, 59u8];
    let semi: Seq<u8> = seq![59u8];
    lemma_decimal_params(r as nat);
    lemma_decimal_params(g as nat);
    lemma_decimal_params(b as nat);
    lemma_params_concat(head, decimal(r as nat));
    lemma_params_concat(head + decimal(r as nat), semi);
    lemma_params_concat(head + decimal(r as nat) + semi, decimal(g as nat));
    lemma_params_concat(head + decimal(r as nat) + semi + decimal(g as nat), semi);
    lemma_params_concat(head + decimal(r as nat) + semi + decimal(g as nat) + semi, decimal(b as nat));
    let p = head + decimal(r as nat) + semi + decimal(g as nat) + semi + decimal(b as nat);
    lemma_params_escape(p, 109u8);
    assert(truecolor(r, g, b) =~= seq![0x1bu8, 0x5bu8] + p + seq![109u8]);
}

pub proof fn lemma_color256_escape(n: int)
    ensures
        is_escape(color256(n)),
{
    let head: Seq<u8> = seq![51u8, 56u8, 59u8, 53u8, 59u8];
    lemma_decimal_params(n as nat);
    lemma_params_concat(head, decimal(n as nat));
    lemma_params_escape(head + decimal(n as nat), 109u8);
    assert(color256(n) =~= seq![0x1bu8, 0x5bu8] + (head + decimal(n as nat)) + seq![109u8]);
}

/// Every colour value reads as an escape.
pub proof fn lemma_color_escape(b: Seq<u8>)
    ensures
        color_of(b) matches Ok(v) ==> is_escape(v),
{
    if b.len() > 0 && b[0] == 35 {
        if b.len() == 7 {
            let (r, g, x) = (
                crate::config::hex_byte(b.subrange(1, 3)),
                crate::config::hex_byte(b.subrange(3, 5)),
                crate::config::hex_byte(b.subrange(5, 7)),
            );
            if r is Some && g is Some && x is Some {
                lemma_truecolor_escape(r->0, g->0, x->0);
            }
        }
    } else if crate::text::i64_text(b) is Some {
        lemma_color256_escape(crate::text::i64_text(b)->0);
    }
}

proof fn lemma_palette_escape(parts: Seq<Seq<u8>>, k: int, whole: Seq<u8>)
    ensures
        palette_from(parts, k, whole) matches Ok(p) ==> forall|m: int| 0 <= m < p.len() ==> is_escape(#[trigger] p[m]),
    decreases k,
{
    if k > 0 {
        lemma_palette_escape(parts, k - 1, whole);
        lemma_color_escape(crate::text::trimmed(parts[k - 1]));
    }
}

/// Every value `hydra.colors` reads as gives each stack an escape.
pub proof fn lemma_hydra_colors_escape(v: Seq<char>, vb: Seq<u8>)
    ensures
        hydra_colors_of(v, vb) matches Ok(h) ==> colors_escape(h),
{
    let parts = crate::config::comma_parts_from(vb, 0);
    lemma_palette_escape(parts, parts.len() as int, vb);
}

pub proof fn lemma_fg_reset_escape()
    ensures
        is_escape(fg_reset()),
{
    lemma_params_escape(seq![51u8, 57u8], 109u8);
    assert(fg_reset() =~= seq![0x1bu8, 0x5bu8] + seq![51u8, 57u8] + seq![109u8]);
}

/// Every colour a stack can get is an escape (a palette as written is
/// taken on trust: its entries must be escapes).
pub open spec fn colors_escape(colors: HydraColorsView) -> bool {
    match colors {
        HydraColorsView::Palette(p) => forall|m: int| 0 <= m < p.len() ==> is_escape(#[trigger] p[m]),
        _ => true,
    }
}

pub proof fn lemma_stack_color_escape(colors: HydraColorsView, name: Seq<u8>, index: int)
    requires
        colors_escape(colors),
        stack_color_spec(colors, name, index).len() > 0,
    ensures
        is_escape(stack_color_spec(colors, name, index)),
{
    match colors {
        HydraColorsView::Hash => {
            let (r, g, b) = crate::hydra::hue_rgb(crate::hydra::name_hue(name));
            lemma_truecolor_escape(r, g, b);
        },
        HydraColorsView::Palette(p) => {
            let m = index % (p.len() as int);
            assert(is_escape(p[m]));
        },
        HydraColorsView::Off => {},
    }
}

// ---------------------------------------------------------------------------
// Whitespace

proof fn lemma_all_ws(s: Seq<u8>, i: int)
    requires
        0 <= i <= s.len(),
        forall|j: int| i <= j < s.len() ==> ascii_ws(#[trigger] s[j]),
    ensures
        text_wf_from(s, i),
        width_from(s, i) == s.len() - i,
    decreases s.len() - i,
{
    if i < s.len() {
        assert(ascii_ws(s[i]));
        assert(csi_end(s, i) is None);
        lemma_decode_lead(s, i);
        lemma_all_ws(s, i + 1);
    }
}

// ---------------------------------------------------------------------------
// Tokens

/// Leaving out `d` visible bytes of `tok` from `i` ends between units.
pub open spec fn aligned(tok: Seq<u8>, i: int, d: int) -> bool
    decreases tok.len() - i,
{
    if d == 0 {
        true
    } else if i < 0 || i >= tok.len() {
        false
    } else {
        match csi_end(tok, i) {
            Some(e) => if i < e <= tok.len() { aligned(tok, e, d) } else { false },
            None => {
                let k = lead_len(tok[i]);
                if i + k <= tok.len() { k <= d && aligned(tok, i + k, d - k) } else { false }
            },
        }
    }
}

/// Over bytes that start no escape, a token is copied byte for byte, the
/// stand-in in front and the first `d` left out.
proof fn lemma_token_plain(
    tok: Seq<u8>,
    j: int,
    end: int,
    drop_fg: bool,
    r: Seq<u8>,
    pending: bool,
    d: int,
)
    requires
        0 <= j <= end <= tok.len(),
        forall|m: int| j <= m < end ==> #[trigger] tok[m] != 0x1b,
        d == 0 || d >= end - j,
    ensures
        token_from(tok, j, drop_fg, r, pending, d) == (if pending && j < end { r } else { Seq::empty() })
            + (if d == 0 { tok.subrange(j, end) } else { Seq::empty() }) + token_from(
            tok,
            end,
            drop_fg,
            r,
            pending && j == end,
            if d == 0 { 0 } else { d - (end - j) },
        ),
    decreases end - j,
{
    if j < end {
        assert(tok[j] != 0x1b);
        assert(csi_end(tok, j) is None);
        if d > 0 {
            lemma_token_plain(tok, j + 1, end, drop_fg, r, false, d - 1);
        } else {
            lemma_token_plain(tok, j + 1, end, drop_fg, r, false, 0);
            assert(seq![tok[j]] + tok.subrange(j + 1, end) =~= tok.subrange(j, end));
        }
    } else {
        assert(tok.subrange(j, end) =~= Seq::<u8>::empty());
    }
}

proof fn lemma_strip_plain(s: Seq<u8>, j: int, end: int)
    requires
        0 <= j <= end <= s.len(),
        forall|m: int| j <= m < end ==> #[trigger] s[m] != 0x1b,
    ensures
        strip_ansi_from(s, j) == s.subrange(j, end) + strip_ansi_from(s, end),
    decreases end - j,
{
    if j < end {
        assert(s[j] != 0x1b);
        assert(csi_end(s, j) is None);
        lemma_strip_plain(s, j + 1, end);
        assert(seq![s[j]] + s.subrange(j + 1, end) =~= s.subrange(j, end));
    } else {
        assert(s.subrange(j, end) =~= Seq::<u8>::empty());
    }
}

/// A whole character cut out of well-formed text reads as a unit.
proof fn lemma_char_unit(s: Seq<u8>, i: int)
    requires
        0 <= i < s.len(),
        text_wf_from(s, i),
        csi_end(s, i) is None,
    ensures
        text_wf(s.subrange(i, i + lead_len(s[i]))),
        forall|m: int| i <= m < i + lead_len(s[i]) ==> #[trigger] s[m] != 0x1b,
{
    let k = lead_len(s[i]);
    assert(i + k <= s.len());
    let c = s.subrange(i, i + k);
    assert(c.len() == k);
    assert(c[0] == s[i]);
    assert(csi_end(c, 0) is None);
    assert forall|m: int| 0 < m < k implies is_cont(#[trigger] c[m]) by {
        assert(c[m] == s[i + m]);
    }
    assert(text_wf_from(c, k));
    assert(text_wf_from(c, 0));
    assert forall|m: int| i <= m < i + k implies #[trigger] s[m] != 0x1b by {
        if m > i {
            assert(is_cont(s[m]));
        }
    }
}

/// The CSI escape a unit of well-formed text starts.
proof fn lemma_escape_unit(s: Seq<u8>, i: int)
    requires
        0 <= i < s.len(),
        text_wf_from(s, i),
        csi_end(s, i) is Some,
    ensures
        is_escape(s.subrange(i, csi_end(s, i)->0)),
{
    let e = csi_end(s, i)->0;
    let seg = s.subrange(i, e);
    lemma_scan_nonfinal(s, i + 2);
    assert forall|j: int| 2 <= j < seg.len() - 1 implies !is_csi_final(#[trigger] seg[j]) by {
        assert(seg[j] == s[i + j]);
    }
    assert forall|j: int| 0 <= j < seg.len() implies !ascii_ws(#[trigger] seg[j]) by {
        assert(seg[j] == s[i + j]);
    }
}

/// With whole units left out, a token's copy reads as whole units, and
/// leaving jj's foreground escapes out of it changes nothing on screen.
pub proof fn lemma_token_width(tok: Seq<u8>, i: int, r: Seq<u8>, pending: bool, d: int)
    requires
        text_wf_from(tok, i),
        aligned(tok, i, d),
        text_wf(r),
        d >= 0,
    ensures
        text_wf(token_from(tok, i, true, r, pending, d)),
        text_wf(token_from(tok, i, false, r, pending, d)),
        width(token_from(tok, i, true, r, pending, d)) == width(token_from(tok, i, false, r, pending, d)),
    decreases tok.len() - i,
{
    if i < tok.len() {
        match csi_end(tok, i) {
            Some(e) => {
                let seg = tok.subrange(i, e);
                lemma_escape_unit(tok, i);
                lemma_escape(seg);
                lemma_token_width(tok, e, r, pending, d);
                lemma_concat(seg, token_from(tok, e, true, r, pending, d));
                lemma_concat(seg, token_from(tok, e, false, r, pending, d));
            },
            None => {
                let k = lead_len(tok[i]);
                lemma_char_unit(tok, i);
                lemma_token_plain(tok, i, i + k, true, r, pending, d);
                lemma_token_plain(tok, i, i + k, false, r, pending, d);
                let d2 = if d == 0 { 0 } else { d - k };
                lemma_token_width(tok, i + k, r, false, d2);
                let p: Seq<u8> = if pending { r } else { Seq::empty() };
                let c: Seq<u8> = if d == 0 { tok.subrange(i, i + k) } else { Seq::empty() };
                lemma_concat(p, c);
                lemma_concat(p + c, token_from(tok, i + k, true, r, false, d2));
                lemma_concat(p + c, token_from(tok, i + k, false, r, false, d2));
            },
        }
    }
}

/// A token copied with nothing left out and nothing in front is itself.
pub proof fn lemma_token_copy(tok: Seq<u8>, i: int)
    requires
        0 <= i <= tok.len(),
    ensures
        token_from(tok, i, false, Seq::empty(), false, 0) == tok.subrange(i, tok.len() as int),
    decreases tok.len() - i,
{
    if i < tok.len() {
        match csi_end(tok, i) {
            Some(e) => {
                crate::ansi::lemma_csi_end_bounds(tok, i);
                lemma_token_copy(tok, e);
                assert(tok.subrange(i, e) + tok.subrange(e, tok.len() as int) =~= tok.subrange(i, tok.len() as int));
            },
            None => {
                lemma_token_copy(tok, i + 1);
                assert(seq![tok[i]] + tok.subrange(i + 1, tok.len() as int) =~= tok.subrange(i, tok.len() as int));
            },
        }
    } else {
        assert(tok.subrange(i, tok.len() as int) =~= Seq::<u8>::empty());
    }
}

/// A well-formed leader the name starts with ends between units of the
/// token it was read from.
pub proof fn lemma_prefix_aligned(tok: Seq<u8>, i: int, p: Seq<u8>)
    requires
        text_wf_from(tok, i),
        text_wf(p),
        p.len() <= strip_ansi_from(tok, i).len(),
        p == strip_ansi_from(tok, i).subrange(0, p.len() as int),
    ensures
        aligned(tok, i, p.len() as int),
    decreases tok.len() - i,
{
    if p.len() > 0 {
        assert(i < tok.len());
        match csi_end(tok, i) {
            Some(e) => {
                lemma_prefix_aligned(tok, e, p);
            },
            None => {
                let k = lead_len(tok[i]);
                lemma_char_unit(tok, i);
                lemma_strip_plain(tok, i, i + k);
                assert(p[0] == tok[i]);
                assert(csi_end(p, 0) is None);
                let rest = p.subrange(k, p.len() as int);
                assert(p =~= p.subrange(0, k) + rest);
                lemma_width_shift(p.subrange(0, k), rest, 0);
                assert(rest =~= strip_ansi_from(tok, i + k).subrange(0, rest.len() as int));
                lemma_prefix_aligned(tok, i + k, rest);
            },
        }
    }
}

// ---------------------------------------------------------------------------
// The bookmarks field, run by run

proof fn lemma_run_end(s: Seq<u8>, j: int, ws: bool)
    requires
        0 <= j <= s.len(),
    ensures
        j <= ws_run_end(s, j, ws) <= s.len(),
        forall|m: int| j <= m < ws_run_end(s, j, ws) ==> ascii_ws(#[trigger] s[m]) == ws,
        ws_run_end(s, j, ws) == s.len() || ascii_ws(s[ws_run_end(s, j, ws)]) != ws,
    decreases s.len() - j,
{
    if j < s.len() && ascii_ws(s[j]) == ws {
        lemma_run_end(s, j + 1, ws);
    }
}

proof fn lemma_ws_units(s: Seq<u8>, j: int, e: int)
    requires
        0 <= j <= e <= s.len(),
        text_wf_from(s, j),
        forall|m: int| j <= m < e ==> ascii_ws(#[trigger] s[m]),
    ensures
        text_wf_from(s, e),
    decreases e - j,
{
    if j < e {
        assert(ascii_ws(s[j]));
        assert(csi_end(s, j) is None);
        lemma_ws_units(s, j + 1, e);
    }
}

proof fn lemma_scan_window(s: Seq<u8>, lo: int, hi: int, j: int)
    requires
        0 <= lo <= j < hi <= s.len(),
        j < csi_scan(s, j) <= hi,
        is_csi_final(s[csi_scan(s, j) - 1]),
    ensures
        csi_scan(s.subrange(lo, hi), j - lo) == csi_scan(s, j) - lo,
    decreases hi - j,
{
    assert(s.subrange(lo, hi)[j - lo] == s[j]);
    if !is_csi_final(s[j]) {
        lemma_csi_scan_bounds(s, j + 1);
        lemma_scan_window(s, lo, hi, j + 1);
    }
}

/// A whitespace-free run of well-formed text is cut out between units.
proof fn lemma_word(s: Seq<u8>, i: int, j: int, e: int)
    requires
        0 <= i <= j <= e <= s.len(),
        text_wf_from(s, j),
        forall|m: int| j <= m < e ==> !ascii_ws(#[trigger] s[m]),
        e == s.len() || ascii_ws(s[e]),
    ensures
        text_wf_from(s.subrange(i, e), j - i),
        text_wf_from(s, e),
    decreases e - j,
{
    let sub = s.subrange(i, e);
    if j < e {
        assert(sub[j - i] == s[j]);
        match csi_end(s, j) {
            Some(f) => {
                assert(f <= e) by {
                    if f > e {
                        assert(!ascii_ws(s[e]));
                    }
                }
                assert(sub[j - i + 1] == s[j + 1]);
                lemma_scan_window(s, i, e, j + 2);
                assert(csi_end(sub, j - i) == Some(f - i));
                assert(sub[f - i - 1] == s[f - 1]);
                assert forall|m: int| j - i <= m < f - i implies !ascii_ws(#[trigger] sub[m]) by {
                    assert(sub[m] == s[m + i]);
                }
                lemma_word(s, i, f, e);
            },
            None => {
                let k = lead_len(s[j]);
                assert(j + k <= e) by {
                    if j + k > e {
                        assert(is_cont(s[e]));
                    }
                }
                assert(csi_end(sub, j - i) is None);
                assert forall|m: int| j - i < m < j - i + k implies is_cont(#[trigger] sub[m]) by {
                    assert(sub[m] == s[m + i]);
                    assert(is_cont(s[m + i]));
                }
                lemma_word(s, i, j + k, e);
            },
        }
    }
}

/// Stand-ins and leaders that read as whole units.
pub open spec fn plain_names(t: TopoView) -> bool {
    &&& text_wf(t.stack_prefix)
    &&& text_wf(t.wc_prefix)
    &&& forall|m: int| 0 <= m < t.anchors.len() ==> text_wf(#[trigger] t.anchors[m])
    &&& t.stack_replace matches Some(r) ==> text_wf(r)
    &&& t.wc_replace matches Some(r) ==> text_wf(r)
    &&& forall|m: int| 0 <= m < t.anchor_replace.len() ==> (#[trigger] t.anchor_replace[m] matches Some(r)
        ==> text_wf(r))
}

/// No name or stand-in of the topology holds an ESC byte.
pub open spec fn no_esc_names(t: TopoView) -> bool {
    &&& no_esc(t.stack_prefix)
    &&& no_esc(t.wc_prefix)
    &&& forall|m: int| 0 <= m < t.anchors.len() ==> no_esc(#[trigger] t.anchors[m])
    &&& t.stack_replace matches Some(r) ==> no_esc(r)
    &&& t.wc_replace matches Some(r) ==> no_esc(r)
    &&& forall|m: int| 0 <= m < t.anchor_replace.len() ==> (#[trigger] t.anchor_replace[m] matches Some(r)
        ==> no_esc(r))
}

proof fn lemma_encoded_text(o: Option<Seq<char>>)
    requires
        crate::hydra::opt_utf8(o) matches Some(r) ==> no_esc(r),
    ensures
        crate::hydra::opt_utf8(o) matches Some(r) ==> text_wf(r),
{
    if let Some(c) = o {
        vstd::utf8::encode_utf8_valid_utf8(c);
        lemma_valid_text(vstd::utf8::encode_utf8(c));
    }
}

/// The naming `hydra.prefixes` and `hydra.prefixes-replace` set up reads as
/// whole units, as long as no name holds an ESC.
pub proof fn lemma_topology_plain(p: crate::config::HydraPrefixesView, r: crate::config::HydraPrefixReplaceView)
    requires
        no_esc_names(crate::hydra::topo_of(p, r)),
    ensures
        plain_names(crate::hydra::topo_of(p, r)),
{
    let t = crate::hydra::topo_of(p, r);
    lemma_encoded_text(Some(p.prefix + p.stack_head + "-"@));
    lemma_encoded_text(Some(p.prefix + p.stack_working_copy + "-"@));
    lemma_encoded_text(Some(p.prefix + p.base));
    lemma_encoded_text(Some(p.prefix + p.head));
    lemma_encoded_text(Some(p.prefix + p.conflict_resolution));
    assert(no_esc(t.anchors[0]) && no_esc(t.anchors[1]) && no_esc(t.anchors[2]));
    lemma_encoded_text(crate::config::leader_of(r.stack_head, r.prefix, p.stack_head + "-"@));
    lemma_encoded_text(crate::config::leader_of(r.stack_working_copy, r.prefix, p.stack_working_copy + "-"@));
    assert(t.anchor_replace[0] matches Some(x) ==> no_esc(x));
    assert(t.anchor_replace[1] matches Some(x) ==> no_esc(x));
    assert(t.anchor_replace[2] matches Some(x) ==> no_esc(x));
    lemma_encoded_text(crate::config::leader_of(r.base, r.prefix, p.base));
    lemma_encoded_text(crate::config::leader_of(r.head, r.prefix, p.head));
    lemma_encoded_text(crate::config::leader_of(r.conflict_resolution, r.prefix, p.conflict_resolution));
    assert forall|m: int| 0 <= m < t.anchors.len() implies text_wf(#[trigger] t.anchors[m]) by {
        if m == 0 {} else if m == 1 {} else {}
    }
    assert forall|m: int| 0 <= m < t.anchor_replace.len() implies (#[trigger] t.anchor_replace[m] matches Some(x)
        ==> text_wf(x)) by {
        if m == 0 {} else if m == 1 {} else {}
    }
}

proof fn lemma_anchor_index(anchors: Seq<Seq<u8>>, name: Seq<u8>, i: int)
    requires
        anchor_index(anchors, name, i) is Some,
    ensures
        i <= anchor_index(anchors, name, i)->0 < anchors.len(),
        anchors[anchor_index(anchors, name, i)->0] == name,
    decreases anchors.len() - i,
{
    if 0 <= i < anchors.len() && anchors[i] != name {
        lemma_anchor_index(anchors, name, i + 1);
    }
}

proof fn lemma_leader_aligned(tok: Seq<u8>, p: Seq<u8>)
    requires
        text_wf(tok),
        text_wf(p),
        p.len() <= strip_star(strip_ansi_from(tok, 0)).len(),
        strip_star(strip_ansi_from(tok, 0)).subrange(0, p.len() as int) == p,
    ensures
        aligned(tok, 0, p.len() as int),
{
    let clean = strip_ansi_from(tok, 0);
    assert(clean.subrange(0, p.len() as int) =~= p);
    lemma_prefix_aligned(tok, 0, p);
}

/// What a token reads as: a stand-in that reads as whole units, for a
/// leader that ends between units.
proof fn lemma_replacement_aligned(t: TopoView, tok: Seq<u8>)
    requires
        text_wf(tok),
        plain_names(t),
        replacement_spec(t, strip_ansi_from(tok, 0)) is Some,
    ensures
        ({
            let (r, n) = replacement_spec(t, strip_ansi_from(tok, 0))->0;
            text_wf(r) && n >= 0 && aligned(tok, 0, n)
        }),
{
    let clean = strip_ansi_from(tok, 0);
    let name = strip_star(clean);
    if crate::hydra::after_leader(name, t.stack_prefix) is Some {
        lemma_leader_aligned(tok, t.stack_prefix);
    } else if crate::hydra::after_leader(name, t.wc_prefix) is Some {
        lemma_leader_aligned(tok, t.wc_prefix);
    } else {
        lemma_anchor_index(t.anchors, name, 0);
        let m = anchor_index(t.anchors, name, 0)->0;
        assert(text_wf(t.anchors[m]));
        assert(t.anchor_replace[m] is Some);
        assert(name.subrange(0, name.len() as int) =~= name);
        lemma_leader_aligned(tok, t.anchors[m]);
    }
}

/// The bookmarks field rewritten with its colours reads as whole units and
/// takes as many cells as it does rewritten without them, whatever stacks
/// either rewrite has seen.
pub proof fn lemma_rewrite_width(
    t: TopoView,
    colors: HydraColorsView,
    color_on: bool,
    seen: Seq<Seq<u8>>,
    seen2: Seq<Seq<u8>>,
    raw: Seq<u8>,
    i: int,
)
    requires
        text_wf_from(raw, i),
        plain_names(t),
        colors_escape(colors),
    ensures
        text_wf(rewrite_from(t, colors, color_on, seen, raw, i).0),
        text_wf(rewrite_from(t, HydraColorsView::Off, false, seen2, raw, i).0),
        width(rewrite_from(t, colors, color_on, seen, raw, i).0) == width(
            rewrite_from(t, HydraColorsView::Off, false, seen2, raw, i).0,
        ),
    decreases raw.len() - i,
{
    if 0 <= i < raw.len() {
        let ws = ascii_ws(raw[i]);
        lemma_run_end(raw, i + 1, ws);
        let e = ws_run_end(raw, i + 1, ws);
        let tok = raw.subrange(i, e);
        if ws {
            lemma_ws_units(raw, i, e);
            lemma_all_ws(tok, 0);
            lemma_rewrite_width(t, colors, color_on, seen, seen2, raw, e);
            lemma_concat(tok, rewrite_from(t, colors, color_on, seen, raw, e).0);
            lemma_concat(tok, rewrite_from(t, HydraColorsView::Off, false, seen2, raw, e).0);
        } else {
            lemma_word(raw, i, i, e);
            let clean = strip_ansi_from(tok, 0);
            let name = crate::hydra::stack_of_spec(t, clean);
            let seen1 = if color_on && name is Some { crate::hydra::seen_after(seen, name->0) } else { seen };
            let sgr: Seq<u8> = if color_on && name is Some {
                stack_color_spec(colors, name->0, crate::hydra::index_in(seen, name->0))
            } else {
                Seq::empty()
            };
            let rep = replacement_spec(t, clean);
            let (r, n): (Seq<u8>, int) = match rep {
                Some((r, n)) => (r, n),
                None => (Seq::empty(), 0),
            };
            let pend = rep is Some;
            if rep is Some {
                lemma_replacement_aligned(t, tok);
            } else {
                assert(text_wf(Seq::<u8>::empty()));
                lemma_token_copy(tok, 0);
                assert(tok.subrange(0, tok.len() as int) =~= tok);
            }
            lemma_token_width(tok, 0, r, pend, n);
            let tt = token_from(tok, 0, true, r, pend, n);
            let tf = token_from(tok, 0, false, r, pend, n);
            assert(crate::hydra::token_bytes(tok, true, rep) == tt);
            assert(crate::hydra::token_bytes(tok, false, rep) == tf);
            if sgr.len() > 0 {
                lemma_stack_color_escape(colors, name->0, crate::hydra::index_in(seen, name->0));
                lemma_escape(sgr);
                lemma_fg_reset_escape();
                lemma_escape(fg_reset());
                lemma_concat(sgr, tt);
                lemma_concat(sgr + tt, fg_reset());
            }
            let piece_c = if sgr.len() > 0 {
                sgr + tt + fg_reset()
            } else if rep is Some {
                tf
            } else {
                tok
            };
            let piece_o = if rep is Some { tf } else { tok };
            assert(text_wf(piece_c) && text_wf(piece_o) && width(piece_c) == width(piece_o));
            lemma_rewrite_width(t, colors, color_on, seen1, seen2, raw, e);
            lemma_concat(piece_c, rewrite_from(t, colors, color_on, seen1, raw, e).0);
            lemma_concat(piece_o, rewrite_from(t, HydraColorsView::Off, false, seen2, raw, e).0);
        }
    } else {
        assert(text_wf(Seq::<u8>::empty()));
    }
}

/// Rewritten without colours and taking nothing over, the field is copied
/// as it is.
proof fn lemma_plain_copy(t: TopoView, seen: Seq<Seq<u8>>, raw: Seq<u8>, i: int)
    requires
        0 <= i <= raw.len(),
        !rewrite_from(t, HydraColorsView::Off, false, seen, raw, i).2,
    ensures
        rewrite_from(t, HydraColorsView::Off, false, seen, raw, i).0 == raw.subrange(i, raw.len() as int),
    decreases raw.len() - i,
{
    if i < raw.len() {
        let ws = ascii_ws(raw[i]);
        lemma_run_end(raw, i + 1, ws);
        let e = ws_run_end(raw, i + 1, ws);
        lemma_plain_copy(t, seen, raw, e);
        assert(raw.subrange(i, e) + raw.subrange(e, raw.len() as int) =~= raw.subrange(i, raw.len() as int));
    } else {
        assert(raw.subrange(i, raw.len() as int) =~= Seq::<u8>::empty());
    }
}

/// Whatever the rewrite without colours takes over, the one with them
/// takes over too.
proof fn lemma_taken_with_colors(
    t: TopoView,
    colors: HydraColorsView,
    color_on: bool,
    seen: Seq<Seq<u8>>,
    seen2: Seq<Seq<u8>>,
    raw: Seq<u8>,
    i: int,
)
    requires
        rewrite_from(t, HydraColorsView::Off, false, seen2, raw, i).2,
    ensures
        rewrite_from(t, colors, color_on, seen, raw, i).2,
    decreases raw.len() - i,
{
    if 0 <= i < raw.len() {
        let ws = ascii_ws(raw[i]);
        lemma_run_end(raw, i + 1, ws);
        let e = ws_run_end(raw, i + 1, ws);
        let tok = raw.subrange(i, e);
        let clean = strip_ansi_from(tok, 0);
        let name = crate::hydra::stack_of_spec(t, clean);
        let seen1 = if !ws && color_on && name is Some { crate::hydra::seen_after(seen, name->0) } else { seen };
        if !(!ws && replacement_spec(t, clean) is Some) {
            lemma_taken_with_colors(t, colors, color_on, seen1, seen2, raw, e);
        }
    }
}

/// With no stand-in set, nothing is taken over.
proof fn lemma_nothing_renamed(t: TopoView, seen: Seq<Seq<u8>>, raw: Seq<u8>, i: int)
    requires
        !renames(t),
        t.anchor_replace.len() <= 3,
    ensures
        !rewrite_from(t, HydraColorsView::Off, false, seen, raw, i).2,
    decreases raw.len() - i,
{
    if 0 <= i < raw.len() {
        let ws = ascii_ws(raw[i]);
        lemma_run_end(raw, i + 1, ws);
        let e = ws_run_end(raw, i + 1, ws);
        let clean = strip_ansi_from(raw.subrange(i, e), 0);
        let name = strip_star(clean);
        if anchor_index(t.anchors, name, 0) is Some {
            lemma_anchor_index(t.anchors, name, 0);
            let m = anchor_index(t.anchors, name, 0)->0;
            if m < t.anchor_replace.len() {
                assert(t.anchor_replace[m] is None);
            }
        }
        assert(replacement_spec(t, clean) is None);
        lemma_nothing_renamed(t, seen, raw, e);
    }
}

/// Two rows' fields that take as many cells each put every elastic tab of a
/// template at the same natural column.
pub proof fn lemma_same_widths_same_columns(
    nodes: Seq<NodeView>,
    f1: Map<Seq<u8>, Seq<u8>>,
    f2: Map<Seq<u8>, Seq<u8>>,
    k: int,
)
    requires
        forall|name: Seq<u8>| width(#[trigger] field_value(f1, name)) == width(field_value(f2, name)),
    ensures
        natural_col(nodes, f1, k) == natural_col(nodes, f2, k),
        tab_cols(nodes, f1, k) == tab_cols(nodes, f2, k),
    decreases k,
{
    if k > 0 {
        lemma_same_widths_same_columns(nodes, f1, f2, k - 1);
        match nodes[k - 1] {
            NodeView::Field(name) => {
                assert(width(field_value(f1, name)) == width(field_value(f2, name)));
            },
            NodeView::ElasticTab(name) => {
                assert(width(field_value(f1, name)) == width(field_value(f2, name)));
            },
            _ => {},
        }
    }
}

/// Pass 1 measures a row at the width pass 2 renders it: with its hydra
/// bookmarks renamed and coloured as the walk has them, every field takes
/// as many cells as pass 1 measured it at, so each elastic tab of the
/// row's template lands on the column pass 1 measured, whatever width the
/// stand-ins have. The bookmarks field is taken to read as whole units
/// (closed escapes, complete characters), as are the leaders and stand-ins
/// (so is every naming the configuration sets up whose names hold no ESC,
/// `lemma_topology_plain`), and a palette's entries to be escapes (so is
/// every palette `hydra.colors` reads as, `lemma_hydra_colors_escape`).
pub proof fn lemma_measured_at_rendered_width(
    w: WalkView,
    fields: Map<Seq<u8>, Seq<u8>>,
    prefix: Seq<u8>,
    c: ConfigView,
    nodes: Seq<NodeView>,
)
    requires
        w.topo matches Some(t) ==> plain_names(t) && t.anchor_replace.len() <= 3,
        text_wf(bookmarks_of(fields)),
        colors_escape(c.hydra_colors),
    ensures
        ({
            let rendered = with_bookmarks(fields, markup_step(w, bookmarks_of(fields), prefix, c).bookmarks);
            let pass1 = measured(w.topo, fields);
            &&& forall|name: Seq<u8>| width(#[trigger] field_value(rendered, name)) == width(field_value(pass1, name))
            &&& tab_cols(nodes, rendered, nodes.len() as int) == tab_cols(nodes, pass1, nodes.len() as int)
        }),
{
    let raw = bookmarks_of(fields);
    let key = BOOKMARKS_FIELD.spec_bytes();
    let st = markup_step(w, raw, prefix, c);
    let rendered = with_bookmarks(fields, st.bookmarks);
    let pass1 = measured(w.topo, fields);
    let rb = match st.bookmarks {
        Some(b) => b,
        None => raw,
    };
    let mb = match names_replaced(w.topo, fields) {
        Some(b) => b,
        None => raw,
    };
    if let Some(t) = w.topo {
        let off = rewrite_from(t, HydraColorsView::Off, false, Seq::empty(), raw, 0);
        let cb = c.hydra_color_bookmarks;
        let colors = if cb { c.hydra_colors } else { HydraColorsView::Off };
        let w1seen = match crate::hydra::mark_spec(t, strip_ansi_from(raw, 0)) {
            crate::hydra::MarkView::Stack(name) => crate::hydra::seen_after(w.seen, name),
            crate::hydra::MarkView::WorkingCopy(name) => crate::hydra::seen_after(w.seen, name),
            _ => w.seen,
        };
        let rw = rewrite_from(t, colors, cb, w1seen, raw, 0);
        lemma_rewrite_width(t, colors, cb, w1seen, Seq::empty(), raw, 0);
        if !off.2 {
            lemma_plain_copy(t, Seq::empty(), raw, 0);
            assert(raw.subrange(0, raw.len() as int) =~= raw);
        }
        if !renames(t) {
            lemma_nothing_renamed(t, Seq::empty(), raw, 0);
        }
        if off.2 {
            lemma_taken_with_colors(t, colors, cb, w1seen, Seq::empty(), raw, 0);
        }
        assert(width(rb) == width(mb));
    }
    assert forall|name: Seq<u8>| width(#[trigger] field_value(rendered, name)) == width(field_value(pass1, name)) by {
        if name != key {
            assert(field_value(rendered, name) == field_value(fields, name));
            assert(field_value(pass1, name) == field_value(fields, name));
        } else {
            assert(field_value(rendered, name) == rb);
            assert(field_value(pass1, name) == mb);
        }
    }
    lemma_same_widths_same_columns(nodes, rendered, pass1, nodes.len() as int);
}

// ---------------------------------------------------------------------------
// Elastic-tab alignment

/// Cells a segment takes once rendered.
pub open spec fn seg_width(x: SegView) -> int {
    match x {
        SegView::Content(b) => width(b),
        SegView::Ws(n) => n as int,
        SegView::Anchor(n) => n as int,
        SegView::EmptyTag => 0,
    }
}

/// Cells the segments from `i` on take.
pub open spec fn segs_width_from(s: Seq<SegView>, i: int) -> int
    decreases s.len() - i,
{
    if i < 0 || i >= s.len() {
        0
    } else {
        seg_width(s[i]) + segs_width_from(s, i + 1)
    }
}

pub open spec fn segs_width(s: Seq<SegView>) -> int {
    segs_width_from(s, 0)
}

/// No empty-field marker, and every piece of content reads as whole units.
pub open spec fn plain_segs(s: Seq<SegView>) -> bool {
    forall|i: int|
        0 <= i < s.len() ==> match #[trigger] s[i] {
            SegView::EmptyTag => false,
            SegView::Content(b) => text_wf(b),
            _ => true,
        }
}

proof fn lemma_segs_width_append(a: Seq<SegView>, b: Seq<SegView>, i: int)
    requires
        0 <= i <= a.len(),
    ensures
        segs_width_from(a + b, i) == segs_width_from(a, i) + segs_width(b),
    decreases a.len() + b.len() - i,
{
    if i < a.len() {
        assert((a + b)[i] == a[i]);
        lemma_segs_width_append(a, b, i + 1);
    } else {
        lemma_segs_width_shift(a, b, 0);
    }
}

proof fn lemma_segs_width_shift(a: Seq<SegView>, b: Seq<SegView>, j: int)
    requires
        0 <= j <= b.len(),
    ensures
        segs_width_from(a + b, a.len() + j) == segs_width_from(b, j),
    decreases b.len() - j,
{
    if j < b.len() {
        assert((a + b)[a.len() + j] == b[j]);
        lemma_segs_width_shift(a, b, j + 1);
    }
}

proof fn lemma_plain_append(a: Seq<SegView>, b: Seq<SegView>)
    requires
        plain_segs(a),
        plain_segs(b),
    ensures
        plain_segs(a + b),
        segs_width(a + b) == segs_width(a) + segs_width(b),
{
    lemma_segs_width_append(a, b, 0);
    assert forall|i: int| 0 <= i < (a + b).len() implies match #[trigger] (a + b)[i] {
        SegView::EmptyTag => false,
        SegView::Content(x) => text_wf(x),
        _ => true,
    } by {
        if i < a.len() {
            assert((a + b)[i] == a[i]);
        } else {
            assert((a + b)[i] == b[i - a.len()]);
        }
    }
}

proof fn lemma_plain_one(x: SegView)
    requires
        match x {
            SegView::EmptyTag => false,
            SegView::Content(b) => text_wf(b),
            _ => true,
        },
    ensures
        plain_segs(seq![x]),
        segs_width(seq![x]) == seg_width(x),
{
    assert(segs_width_from(seq![x], 1) == 0);
}

/// Without empty fields, Rule 2 changes nothing.
proof fn lemma_rule2_plain(s: Seq<SegView>)
    requires
        plain_segs(s),
    ensures
        rule2(s) == s,
    decreases s.len(),
{
    if s.len() > 0 {
        let d = s.drop_last();
        assert forall|i: int| 0 <= i < d.len() implies match #[trigger] d[i] {
            SegView::EmptyTag => false,
            SegView::Content(x) => text_wf(x),
            _ => true,
        } by {
            assert(d[i] == s[i]);
        }
        lemma_rule2_plain(d);
        assert(s.last() == s[s.len() - 1]);
        assert(d.push(s.last()) =~= s);
    }
}

/// One rendered cell: reads as a whole unit and takes one cell.
pub open spec fn one_cell(g: Seq<u8>) -> bool {
    text_wf(g) && width(g) == 1
}

/// The dash-fill glyphs take a cell each and the dim colour is an escape.
pub open spec fn cells_one_wide(c: ConfigView) -> bool {
    &&& one_cell(glyph(c.dash))
    &&& caps_enabled(c) ==> one_cell(glyph(c.dash_start))
    &&& one_cell(end_glyph(c))
    &&& is_escape(c.dim_on)
}

proof fn lemma_pad_cells(c: ConfigView, n: int, cells: int, opening: bool)
    requires
        cells_one_wide(c),
        opening ==> caps_enabled(c),
        n >= 0,
    ensures
        text_wf(pad_cells(c, n, cells, opening)),
        width(pad_cells(c, n, cells, opening)) == n,
    decreases n,
{
    if n > 0 {
        lemma_pad_cells(c, n - 1, cells, opening);
        let g = pad_cell(c, n - 1, cells, opening);
        assert(one_cell(g));
        lemma_concat(pad_cells(c, n - 1, cells, opening), g);
    } else {
        assert(text_wf(Seq::<u8>::empty()));
    }
}

/// A dash-filled run of `n` cells takes `n` cells.
pub proof fn lemma_pad_width(n: int, left: LeftSide, c: ConfigView)
    requires
        cells_one_wide(c),
        n >= 0,
    ensures
        text_wf(pad_bytes(n, left, c)),
        width(pad_bytes(n, left, c)) == n,
{
    lemma_escape(c.dim_on);
    lemma_fg_reset_escape();
    lemma_escape(fg_reset());
    if n == 0 {
        assert(text_wf(Seq::<u8>::empty()));
    } else if n == 1 {
        let sp: Seq<u8> = seq![32u8];
        lemma_all_ws(sp, 0);
        lemma_concat(c.dim_on, end_glyph(c));
        lemma_concat(c.dim_on + end_glyph(c), fg_reset());
    } else {
        let opening = caps_enabled(c) && left != LeftSide::GraphEdge;
        lemma_pad_cells(c, n, n, opening);
        lemma_concat(c.dim_on, pad_cells(c, n, n, opening));
        lemma_concat(c.dim_on + pad_cells(c, n, n, opening), fg_reset());
    }
}

proof fn lemma_pad_run_cells(s: Seq<SegView>, i: int)
    requires
        0 <= i <= s.len(),
    ensures
        i <= pad_run_end(s, i) <= s.len(),
        i < s.len() && is_pad(s[i]) ==> i < pad_run_end(s, i),
        segs_width_from(s, i) == pad_run_total(s, i) + segs_width_from(s, pad_run_end(s, i)),
        pad_run_total(s, i) >= 0,
    decreases s.len() - i,
{
    if i < s.len() && is_pad(s[i]) {
        lemma_pad_run_cells(s, i + 1);
    }
}

/// Rendered segments take the cells the segments add up to.
pub proof fn lemma_emit_width(s: Seq<SegView>, i: int, content: bool, lead: LeftSide, c: ConfigView)
    requires
        plain_segs(s),
        cells_one_wide(c),
        0 <= i <= s.len(),
    ensures
        text_wf(emit_from(s, i, content, lead, c)),
        width(emit_from(s, i, content, lead, c)) == segs_width_from(s, i),
    decreases s.len() - i,
{
    if i < s.len() {
        assert(match s[i] {
            SegView::EmptyTag => false,
            SegView::Content(b) => text_wf(b),
            _ => true,
        });
        match s[i] {
            SegView::Content(b) => {
                lemma_emit_width(s, i + 1, true, lead, c);
                lemma_concat(b, emit_from(s, i + 1, true, lead, c));
            },
            SegView::EmptyTag => {},
            _ => {
                lemma_pad_run_cells(s, i);
                let e = pad_run_end(s, i);
                let left = if content { LeftSide::Content } else { lead };
                lemma_pad_width(pad_run_total(s, i), left, c);
                lemma_emit_width(s, e, content, lead, c);
                lemma_concat(pad_bytes(pad_run_total(s, i), left, c), emit_from(s, e, content, lead, c));
            },
        }
    } else {
        assert(text_wf(Seq::<u8>::empty()));
    }
}

/// A run of spaces: one cell each.
proof fn lemma_space_run(b: Seq<u8>, m: int, e: int)
    requires
        0 <= m <= e <= b.len(),
        text_wf_from(b, m),
        forall|k: int| m <= k < e ==> #[trigger] b[k] == 32,
    ensures
        text_wf_from(b, e),
        width_from(b, m) == (e - m) + width_from(b, e),
    decreases e - m,
{
    if m < e {
        assert(b[m] == 32);
        assert(csi_end(b, m) is None);
        lemma_decode_lead(b, m);
        lemma_space_run(b, m + 1, e);
    }
}

/// A run up to a space (or the end) is cut out between units, and its
/// width adds to what follows.
proof fn lemma_cut(s: Seq<u8>, i: int, j: int, e: int)
    requires
        0 <= i <= j <= e <= s.len(),
        text_wf_from(s, j),
        e == s.len() || s[e] == 32,
    ensures
        text_wf_from(s.subrange(i, e), j - i),
        text_wf_from(s, e),
        width_from(s, j) == width_from(s.subrange(i, e), j - i) + width_from(s, e),
    decreases e - j,
{
    let sub = s.subrange(i, e);
    if j < e {
        assert(sub[j - i] == s[j]);
        match csi_end(s, j) {
            Some(f) => {
                assert(f <= e) by {
                    if f > e {
                        assert(!ascii_ws(s[e]));
                    }
                }
                assert(sub[j - i + 1] == s[j + 1]);
                lemma_scan_window(s, i, e, j + 2);
                assert(csi_end(sub, j - i) == Some(f - i));
                assert(sub[f - i - 1] == s[f - 1]);
                assert forall|m: int| j - i <= m < f - i implies !ascii_ws(#[trigger] sub[m]) by {
                    assert(sub[m] == s[m + i]);
                }
                lemma_cut(s, i, f, e);
            },
            None => {
                let k = lead_len(s[j]);
                assert(j + k <= e) by {
                    if j + k > e {
                        assert(is_cont(s[e]));
                    }
                }
                assert(csi_end(sub, j - i) is None);
                assert forall|m: int| j - i < m < j - i + k implies is_cont(#[trigger] sub[m]) by {
                    assert(sub[m] == s[m + i]);
                    assert(is_cont(s[m + i]));
                }
                lemma_decode_lead(s, j);
                lemma_decode_lead(sub, j - i);
                lemma_cut(s, i, j + k, e);
            },
        }
    }
}

/// A literal's segments take as many cells as the literal.
proof fn lemma_lit_segs(b: Seq<u8>, i: int)
    requires
        0 <= i <= b.len(),
        b.len() <= usize::MAX,
        text_wf_from(b, i),
    ensures
        plain_segs(lit_segs_from(b, i)),
        segs_width(lit_segs_from(b, i)) == width_from(b, i),
    decreases b.len() - i,
{
    if i < b.len() {
        let sp = b[i] == 32;
        crate::dsl::lemma_run_end(b, i + 1, sp);
        let e = run_end(b, i + 1, sp);
        if sp {
            lemma_space_run(b, i, e);
            lemma_lit_segs(b, e);
            lemma_plain_one(SegView::Ws((e - i) as usize));
            lemma_plain_append(seq![SegView::Ws((e - i) as usize)], lit_segs_from(b, e));
        } else {
            lemma_cut(b, i, i, e);
            lemma_lit_segs(b, e);
            let chunk = b.subrange(i, e);
            lemma_plain_one(SegView::Content(chunk));
            lemma_plain_append(seq![SegView::Content(chunk)], lit_segs_from(b, e));
        }
    } else {
        assert(text_wf(Seq::<u8>::empty()));
    }
}

/// A node renders without an empty field, its text reading as whole units.
pub open spec fn node_renders_plainly(n: NodeView, fields: Map<Seq<u8>, Seq<u8>>) -> bool {
    match n {
        NodeView::Literal(b) => text_wf(b) && b.len() <= usize::MAX,
        NodeView::Field(name) => field_value(fields, name).len() > 0 && text_wf(field_value(fields, name)),
        NodeView::ElasticTab(name) => name.len() > 0 ==> field_value(fields, name).len() > 0 && text_wf(
            field_value(fields, name),
        ),
    }
}

/// Pass 2's segments for the first `m` nodes take the row's column, the
/// leading gap included.
proof fn lemma_row_state_width(
    nodes: Seq<NodeView>,
    fields: Map<Seq<u8>, Seq<u8>>,
    anchors: Seq<usize>,
    lead: usize,
    m: int,
)
    requires
        0 <= m <= nodes.len(),
        forall|k: int| 0 <= k < m ==> node_renders_plainly(#[trigger] nodes[k], fields),
    ensures
        plain_segs(row_state(nodes, fields, anchors, lead, m).segs),
        segs_width(row_state(nodes, fields, anchors, lead, m).segs) == lead + row_state(
            nodes,
            fields,
            anchors,
            lead,
            m,
        ).col,
        row_state(nodes, fields, anchors, lead, m).col >= 0,
        row_state(nodes, fields, anchors, lead, m).tab >= 0,
    decreases m,
{
    if m == 0 {
        if lead > 0 {
            lemma_plain_one(SegView::Ws(lead));
        }
    } else {
        lemma_row_state_width(nodes, fields, anchors, lead, m - 1);
        let st = row_state(nodes, fields, anchors, lead, m - 1);
        assert(node_renders_plainly(nodes[m - 1], fields));
        match nodes[m - 1] {
            NodeView::Literal(b) => {
                crate::dsl::lemma_width_from_bounds(b, 0);
                lemma_lit_segs(b, 0);
                lemma_plain_append(st.segs, crate::dsl::lit_segs(b));
            },
            NodeView::Field(name) => {
                let v = field_value(fields, name);
                crate::dsl::lemma_width_from_bounds(v, 0);
                lemma_plain_one(SegView::Content(v));
                lemma_plain_append(st.segs, seq![SegView::Content(v)]);
                assert(st.segs.push(crate::dsl::value_seg(v)) =~= st.segs + seq![SegView::Content(v)]);
            },
            NodeView::ElasticTab(name) => {
                crate::dsl::lemma_width_from_bounds(field_value(fields, name), 0);
                let target: int = if st.tab < anchors.len() { anchors[st.tab] as int } else { st.col };
                assert(0 <= target - st.col <= usize::MAX || target <= st.col);
                let pad: int = if target > st.col { target - st.col } else { 0 };
                let segs1 = if pad > 0 { st.segs.push(SegView::Anchor(pad as usize)) } else { st.segs };
                if pad > 0 {
                    lemma_plain_one(SegView::Anchor(pad as usize));
                    lemma_plain_append(st.segs, seq![SegView::Anchor(pad as usize)]);
                    assert(segs1 =~= st.segs + seq![SegView::Anchor(pad as usize)]);
                }
                if name.len() > 0 {
                    let v = field_value(fields, name);
                    lemma_plain_one(SegView::Content(v));
                    lemma_plain_append(segs1, seq![SegView::Content(v)]);
                    assert(segs1.push(crate::dsl::value_seg(v)) =~= segs1 + seq![SegView::Content(v)]);
                }
            },
        }
    }
}

/// The template cut right after its node `j`, an elastic tab, made
/// arg-less: the row up to the end of that tab's pad.
pub open spec fn upto_tab(nodes: Seq<NodeView>, j: int) -> Seq<NodeView> {
    nodes.subrange(0, j).push(NodeView::ElasticTab(Seq::empty()))
}

/// Elastic tabs line content up: when a row reaches its `t`-th elastic tab
/// (node `j`) at a column no further right than that tab's anchor, the row
/// rendered up to the end of the tab's pad takes exactly the leading gap
/// plus the anchor, whatever the row holds; so the content after the tab
/// starts at the same column in every such row. Taken: no field before the
/// tab renders empty (an empty field collapses whitespace left of it), the
/// text before it reads as whole units, and each dash-fill glyph takes one
/// cell (as the defaults do).
pub proof fn lemma_elastic_tab_alignment(
    nodes: Seq<NodeView>,
    fields: Map<Seq<u8>, Seq<u8>>,
    anchors: Seq<usize>,
    lead: usize,
    left: LeftSide,
    c: ConfigView,
    j: int,
)
    requires
        0 <= j < nodes.len(),
        nodes[j] is ElasticTab,
        forall|k: int| 0 <= k < j ==> node_renders_plainly(#[trigger] nodes[k], fields),
        cells_one_wide(c),
        row_state(nodes, fields, anchors, lead, j).tab < anchors.len(),
        row_state(nodes, fields, anchors, lead, j).col <= anchors[row_state(nodes, fields, anchors, lead, j).tab],
    ensures
        width(row_bytes(upto_tab(nodes, j), fields, anchors, lead, left, c)) == lead
            + anchors[row_state(nodes, fields, anchors, lead, j).tab],
{
    let cut = upto_tab(nodes, j);
    crate::dsl::lemma_same_prefix(nodes, cut, fields, anchors, lead, j);
    assert forall|k: int| 0 <= k < j implies node_renders_plainly(#[trigger] cut[k], fields) by {
        assert(cut[k] == nodes[k]);
    }
    lemma_row_state_width(cut, fields, anchors, lead, j);
    let st = row_state(cut, fields, anchors, lead, j);
    let t = st.tab;
    let pad: int = anchors[t] - st.col;
    let segs = row_state(cut, fields, anchors, lead, j + 1).segs;
    assert(cut[j] == NodeView::ElasticTab(Seq::<u8>::empty()));
    assert(cut.len() == j + 1);
    if pad > 0 {
        lemma_plain_one(SegView::Anchor(pad as usize));
        lemma_plain_append(st.segs, seq![SegView::Anchor(pad as usize)]);
        assert(segs =~= st.segs + seq![SegView::Anchor(pad as usize)]);
    } else {
        assert(segs == st.segs);
    }
    lemma_rule2_plain(segs);
    lemma_emit_width(segs, 0, false, left, c);
}

// ---------------------------------------------------------------------------
// The restyled graph keeps its width

proof fn lemma_drop_spaces_append(a: Seq<u8>, b: Seq<u8>)
    ensures
        drop_spaces(a + b) == drop_spaces(a) + drop_spaces(b),
    decreases b.len(),
{
    if b.len() > 0 {
        lemma_drop_spaces_append(a, b.drop_last());
        assert((a + b).drop_last() =~= a + b.drop_last());
        assert((a + b).last() == b.last());
    } else {
        assert(a + b =~= a);
    }
}

proof fn lemma_drop_spaces_none(a: Seq<u8>)
    requires
        forall|k: int| 0 <= k < a.len() ==> #[trigger] a[k] != 32,
    ensures
        drop_spaces(a) == a,
    decreases a.len(),
{
    if a.len() > 0 {
        lemma_drop_spaces_none(a.drop_last());
        assert(a.drop_last().push(a.last()) =~= a);
    }
}

/// A run of escapes cut out of well-formed text, and its filtered copy:
/// both read as whole units, take no cell and hold no space.
proof fn lemma_escape_run(s: Seq<u8>, i0: int, m: int, j: int)
    requires
        0 <= i0 <= m <= j <= s.len(),
        text_wf_from(s, m),
        skip_csis(s, m) == j,
    ensures
        text_wf_from(s.subrange(i0, j), m - i0),
        width_from(s.subrange(i0, j), m - i0) == 0,
        text_wf(filtered_from(s.subrange(i0, j), m - i0)),
        width(filtered_from(s.subrange(i0, j), m - i0)) == 0,
        drop_spaces(filtered_from(s.subrange(i0, j), m - i0)) == filtered_from(s.subrange(i0, j), m - i0),
        text_wf_from(s, j),
        width_from(s, m) == width_from(s, j),
    decreases j - m,
{
    let w = s.subrange(i0, j);
    if m == j {
        assert(text_wf(Seq::<u8>::empty()));
        lemma_drop_spaces_none(Seq::<u8>::empty());
    } else {
        let e = csi_end(s, m)->0;
        crate::render::lemma_skip_csis(s, e);
        assert(m < e <= j);
        assert(w[m - i0] == s[m]);
        assert(w[m - i0 + 1] == s[m + 1]);
        lemma_scan_window(s, i0, j, m + 2);
        assert(csi_end(w, m - i0) == Some(e - i0));
        assert(w[e - i0 - 1] == s[e - 1]);
        assert forall|k: int| m - i0 <= k < e - i0 implies !ascii_ws(#[trigger] w[k]) by {
            assert(w[k] == s[k + i0]);
        }
        lemma_escape_run(s, i0, e, j);
        lemma_escape_unit(s, m);
        let seg = s.subrange(m, e);
        assert(w.subrange(m - i0, e - i0) =~= seg);
        lemma_escape(seg);
        assert forall|k: int| 0 <= k < seg.len() implies #[trigger] seg[k] != 32 by {
            assert(!ascii_ws(seg[k]));
        }
        lemma_drop_spaces_none(seg);
        let rest = filtered_from(w, e - i0);
        let kept = if crate::ansi::is_sgr_seq(w, e - i0) && crate::ansi::drops_fg(w.subrange(m - i0 + 2, e - i0 - 1)) {
            Seq::empty()
        } else {
            w.subrange(m - i0, e - i0)
        };
        assert(filtered_from(w, m - i0) == kept + rest);
        assert(text_wf(Seq::<u8>::empty()));
        lemma_drop_spaces_none(Seq::<u8>::empty());
        lemma_concat(kept, rest);
        lemma_drop_spaces_append(kept, rest);
    }
}

/// Escapes and spaces waiting to be turned into a dash run: `n` cells, and
/// nothing visible once the spaces go.
pub open spec fn pending_ok(r: Seq<u8>, n: int) -> bool {
    &&& text_wf(r)
    &&& width(r) == n
    &&& text_wf(drop_spaces(r))
    &&& width(drop_spaces(r)) == 0
}

pub open spec fn dim_inv(st: DimState) -> bool {
    &&& text_wf(st.out)
    &&& match st.run.start {
        None => st.run.spaces == 0,
        Some(p) => 0 <= p <= st.out.len() && text_wf(st.out.subrange(0, p)) && pending_ok(
            st.out.subrange(p, st.out.len() as int),
            st.run.spaces,
        ),
    }
}

/// Every glyph the restyle writes takes one cell, and every colour it
/// writes is an escape.
pub open spec fn restyle_one_wide(c: ConfigView, node_sgr: Option<Seq<u8>>) -> bool {
    &&& is_escape(c.dim_on)
    &&& is_escape(c.edge_dim_on)
    &&& one_cell(glyph(c.dash))
    &&& glyph(c.dash_start).len() > 0 ==> one_cell(glyph(c.dash_start))
    &&& forall|cp: u32| #[trigger] graph_glyph(cp, c) matches Some(g) ==> one_cell(g)
    &&& node_sgr matches Some(col) ==> is_escape(col)
}

proof fn lemma_run_dashes(c: ConfigView, n: int, head_cap: bool)
    requires
        one_cell(glyph(c.dash)),
        head_cap ==> one_cell(glyph(c.dash_start)),
        n >= 0,
    ensures
        text_wf(run_dashes(c, n, head_cap)),
        width(run_dashes(c, n, head_cap)) == n,
    decreases n,
{
    if n > 0 {
        lemma_run_dashes(c, n - 1, head_cap);
        let g = if head_cap && n - 1 == 0 { glyph(c.dash_start) } else { glyph(c.dash) };
        lemma_concat(run_dashes(c, n - 1, head_cap), g);
    } else {
        assert(text_wf(Seq::<u8>::empty()));
    }
}

/// Flushing the pending run keeps what is written well formed and as wide.
proof fn lemma_flush_width(st: DimState, right: RightSide, c: ConfigView, node_sgr: Option<Seq<u8>>)
    requires
        dim_inv(st),
        restyle_one_wide(c, node_sgr),
    ensures
        text_wf(flush_out(st.out, st.run, right, c)),
        width(flush_out(st.out, st.run, right, c)) == width(st.out),
{
    if let Some(p) = st.run.start {
        let count = st.run.spaces;
        let right_graph = right == RightSide::Node || right == RightSide::Edge;
        if st.run.seen_node && right_graph && count > 0 && !(count == 1 && st.run.left_was_node && right
            == RightSide::Node) {
            let head_cap = st.run.left_was_node && glyph(c.dash_start).len() > 0;
            let pre = st.out.subrange(0, p);
            let region = st.out.subrange(p, st.out.len() as int);
            assert(st.out =~= pre + region);
            lemma_concat(pre, region);
            lemma_escape(c.dim_on);
            lemma_fg_reset_escape();
            lemma_escape(fg_reset());
            lemma_run_dashes(c, count, head_cap);
            lemma_concat(pre, c.dim_on);
            lemma_concat(pre + c.dim_on, run_dashes(c, count, head_cap));
            lemma_concat(pre + c.dim_on + run_dashes(c, count, head_cap), fg_reset());
            lemma_concat(pre + c.dim_on + run_dashes(c, count, head_cap) + fg_reset(), drop_spaces(region));
        }
    }
}

/// A space joins the pending run.
proof fn lemma_dim_space(st: DimState, fa: Seq<u8>)
    requires
        dim_inv(st),
        text_wf(fa),
        width(fa) == 0,
        drop_spaces(fa) == fa,
    ensures
        ({
            let out2 = st.out + fa + seq![32u8];
            let start = match st.run.start {
                Some(x) => x,
                None => st.out.len() as int,
            };
            let st2 = DimState {
                out: out2,
                run: RunState { start: Some(start), spaces: st.run.spaces + 1, ..st.run },
                cell: st.cell + 1,
            };
            dim_inv(st2) && width(out2) == width(st.out) + 1
        }),
{
    let sp: Seq<u8> = seq![32u8];
    lemma_all_ws(sp, 0);
    assert(sp.drop_last() =~= Seq::<u8>::empty());
    assert(sp.last() == 32u8);
    assert(drop_spaces(Seq::<u8>::empty()) == Seq::<u8>::empty());
    assert(drop_spaces(sp) == drop_spaces(sp.drop_last()) + Seq::<u8>::empty());
    assert(drop_spaces(sp) =~= Seq::<u8>::empty());
    assert(text_wf(Seq::<u8>::empty()));
    lemma_concat(st.out, fa);
    lemma_concat(st.out + fa, sp);
    let out2 = st.out + fa + sp;
    let start = match st.run.start {
        Some(x) => x,
        None => st.out.len() as int,
    };
    let region0 = st.out.subrange(start, st.out.len() as int);
    let region = out2.subrange(start, out2.len() as int);
    assert(region =~= region0 + fa + sp);
    assert(out2.subrange(0, start) =~= st.out.subrange(0, start));
    if st.run.start is None {
        assert(region0 =~= Seq::<u8>::empty());
        assert(st.out.subrange(0, start) =~= st.out);
        lemma_drop_spaces_none(Seq::<u8>::empty());
    }
    lemma_concat(region0, fa);
    lemma_concat(region0 + fa, sp);
    lemma_drop_spaces_append(region0, fa);
    lemma_drop_spaces_append(region0 + fa, sp);
    lemma_concat(drop_spaces(region0), fa);
    assert(drop_spaces(region0) + fa + Seq::<u8>::empty() =~= drop_spaces(region0) + fa);
}

/// A graph glyph flushes the pending run and goes out in one cell.
proof fn lemma_dim_glyph(
    s: Seq<u8>,
    j: int,
    ansi: Seq<u8>,
    st: DimState,
    node_sgr: Option<Seq<u8>>,
    c: ConfigView,
)
    requires
        0 <= j < s.len(),
        text_wf_from(s, j),
        csi_end(s, j) is None,
        text_wf(ansi),
        width(ansi) == 0,
        text_wf(filtered(ansi)),
        width(filtered(ansi)) == 0,
        dim_inv(st),
        restyle_one_wide(c, node_sgr),
    ensures
        ({
            let (cp, n) = decode_at(s, j);
            let raw = s.subrange(j, j + n);
            let edge = edge_cp(cp);
            let right = if edge { RightSide::Edge } else { RightSide::Node };
            let o1 = flush_out(st.out, st.run, right, c);
            let piece = if edge { edge_bytes(cp, raw, ansi, c) } else { node_bytes(raw, ansi, node_sgr) };
            &&& n == lead_len(s[j])
            &&& text_wf(o1 + piece)
            &&& width(o1 + piece) == width(st.out) + 1
        }),
{
    lemma_decode_lead(s, j);
    let (cp, n) = decode_at(s, j);
    let raw = s.subrange(j, j + n);
    lemma_char_unit(s, j);
    assert(s[j] != 0x1b);
    assert(csi_end(raw, 0) is None);
    lemma_decode_lead(raw, 0);
    assert(width_from(raw, n) == 0);
    assert(width(raw) == 1);
    let edge = edge_cp(cp);
    let right = if edge { RightSide::Edge } else { RightSide::Node };
    lemma_flush_width(st, right, c, node_sgr);
    let o1 = flush_out(st.out, st.run, right, c);
    lemma_escape(c.edge_dim_on);
    lemma_fg_reset_escape();
    lemma_escape(fg_reset());
    let fa = filtered(ansi);
    let piece = if edge { edge_bytes(cp, raw, ansi, c) } else { node_bytes(raw, ansi, node_sgr) };
    if edge {
        let g = match graph_glyph(cp, c) {
            Some(g) => g,
            None => raw,
        };
        lemma_concat(fa, c.edge_dim_on);
        lemma_concat(fa + c.edge_dim_on, g);
        lemma_concat(fa + c.edge_dim_on + g, fg_reset());
    } else {
        match node_sgr {
            None => {
                lemma_concat(ansi, raw);
            },
            Some(color) => {
                lemma_escape(color);
                lemma_concat(fa, color);
                lemma_concat(fa + color, raw);
                lemma_concat(fa + color + raw, fg_reset());
            },
        }
    }
    lemma_concat(o1, piece);
}

#[verifier::rlimit(50)]
proof fn lemma_dim_width(s: Seq<u8>, i: int, st: DimState, node_sgr: Option<Seq<u8>>, c: ConfigView)
    requires
        0 <= i <= s.len(),
        text_wf_from(s, i),
        dim_inv(st),
        restyle_one_wide(c, node_sgr),
    ensures
        text_wf(dim_from(s, i, st, false, node_sgr, c)),
        width(dim_from(s, i, st, false, node_sgr, c)) == width(st.out) + width_from(s, i),
    decreases s.len() - i,
{
    if i < s.len() {
        let j = skip_csis(s, i);
        crate::render::lemma_skip_csis(s, i);
        let ansi = s.subrange(i, j);
        lemma_escape_run(s, i, i, j);
        assert(filtered(ansi) == filtered_from(ansi, 0));
        let fa = filtered(ansi);
        if j == s.len() {
            lemma_concat(st.out, fa);
        } else if s[j] == 10 {
            assert(csi_end(s, j) is None);
            lemma_decode_lead(s, j);
            let nl: Seq<u8> = seq![10u8];
            lemma_all_ws(nl, 0);
            lemma_concat(st.out, fa);
            lemma_concat(st.out + fa, nl);
            let r1 = flushed(st.run);
            let st2 = DimState {
                out: st.out + fa + nl,
                run: RunState { seen_node: false, left_was_node: false, ..r1 },
                cell: 0,
            };
            lemma_dim_width(s, j + 1, st2, node_sgr, c);
        } else if s[j] == 32 {
            assert(csi_end(s, j) is None);
            lemma_decode_lead(s, j);
            lemma_dim_space(st, fa);
            let start = match st.run.start {
                Some(x) => x,
                None => st.out.len() as int,
            };
            let st2 = DimState {
                out: st.out + fa + seq![32u8],
                run: RunState { start: Some(start), spaces: st.run.spaces + 1, ..st.run },
                cell: st.cell + 1,
            };
            lemma_dim_width(s, j + 1, st2, node_sgr, c);
        } else {
            assert(csi_end(s, j) is None);
            assert(ansi =~= s.subrange(i, j).subrange(0, j - i));
            assert(width_from(ansi, 0) == 0);
            lemma_dim_glyph(s, j, ansi, st, node_sgr, c);
            let (cp, n) = decode_at(s, j);
            let raw = s.subrange(j, j + n);
            let edge = edge_cp(cp);
            let right = if edge { RightSide::Edge } else { RightSide::Node };
            let o1 = flush_out(st.out, st.run, right, c);
            let r1 = flushed(st.run);
            let piece = if edge { edge_bytes(cp, raw, ansi, c) } else { node_bytes(raw, ansi, node_sgr) };
            let st2 = DimState {
                out: o1 + piece,
                run: if edge { RunState { left_was_node: false, ..r1 } } else { RunState {
                    seen_node: true,
                    left_was_node: true,
                    ..r1
                } },
                cell: st.cell + 1,
            };
            assert(text_wf(Seq::<u8>::empty()));
            lemma_dim_width(s, j + n, st2, node_sgr, c);
        }
    }
}

/// The restyled graph keeps its width: without collapse, each edge becomes
/// one glyph, each node stays, each space one dash or space, and escapes
/// take no cell, so the restyled prefix takes exactly the cells jj drew.
/// Taken: the prefix reads as whole units, and every glyph and colour the
/// restyle writes takes one cell or is an escape.
pub proof fn lemma_restyle_keeps_width(s: Seq<u8>, node_sgr: Option<Seq<u8>>, c: ConfigView)
    requires
        text_wf(s),
        restyle_one_wide(c, node_sgr),
    ensures
        text_wf(dim_graph(Seq::empty(), s, false, node_sgr, c)),
        width(dim_graph(Seq::empty(), s, false, node_sgr, c)) == width(s),
{
    let st = DimState {
        out: Seq::empty(),
        run: RunState { seen_node: false, left_was_node: false, start: None, spaces: 0 },
        cell: 0,
    };
    assert(text_wf(Seq::<u8>::empty()));
    lemma_dim_width(s, 0, st, node_sgr, c);
}

// ---------------------------------------------------------------------------
// The root row

/// The root commit's row: its restyled graph, then a two-cell gap drawn as
/// against a node, then its value and the line's newline; so it takes the
/// graph's cells, two more, and the value's.
pub proof fn lemma_root_row(
    line: Seq<u8>,
    graph_end: usize,
    value: Vec<u8>,
    templates: Map<Seq<u8>, CompiledTemplate>,
    metrics: Map<Seq<u8>, TemplateMetrics>,
    max_graph_col: usize,
    c: ConfigView,
    w: WalkView,
)
    requires
        graph_end <= crate::render::body_of(line).len(),
        cells_one_wide(c),
        text_wf(dim_graph(
            Seq::empty(),
            crate::render::body_of(line).subrange(0, graph_end as int),
            c.graph_collapse,
            None,
            c,
        )),
        text_wf(value@),
    ensures
        ({
            let r = row_out(line, RowKind::Root { graph_end, value }, templates, metrics, max_graph_col, c, w);
            let dg = dim_graph(
                Seq::empty(),
                crate::render::body_of(line).subrange(0, graph_end as int),
                c.graph_collapse,
                None,
                c,
            );
            &&& r.ok
            &&& r.walk == w
            &&& r.bytes == dg + pad_bytes(2, LeftSide::GraphNode, c) + value@ + crate::render::nl_of(line)
            &&& width(r.bytes) == width(dg) + 2 + width(value@) + crate::render::nl_of(line).len()
        }),
{
    let dg = dim_graph(Seq::empty(), crate::render::body_of(line).subrange(0, graph_end as int), c.graph_collapse, None, c);
    let pad = pad_bytes(2, LeftSide::GraphNode, c);
    let nl = crate::render::nl_of(line);
    lemma_pad_width(2, LeftSide::GraphNode, c);
    if nl.len() > 0 {
        lemma_all_ws(nl, 0);
    } else {
        assert(text_wf(nl));
    }
    lemma_concat(dg, pad);
    lemma_concat(dg + pad, value@);
    lemma_concat(dg + pad + value@, nl);
}

} // verus!

use vstd::prelude::*;
use crate::ansi::{
    csi_end, decode_at, decode_utf8, emit_without_fg, fg_reset, filtered, lemma_csi_end_bounds,
    lemma_decode_at_len, skip_csi, FG_RESET,
};
use crate::bytes::push_all;
use crate::config::{Config, ConfigView};
use crate::dsl::glyph;
use crate::map::bytes_eq;

verus! {

/// The line without its trailing newline, and whether it had one.
pub fn strip_trailing_nl(line: &[u8]) -> (r: (&[u8], bool))
    ensures
        r.1 == (line@.len() > 0 && line@.last() == 10),
        r.1 ==> r.0@ == line@.drop_last(),
        !r.1 ==> r.0@ == line@,
{
    if line.len() > 0 && line[line.len() - 1] == 10 {
        (&line[0..line.len() - 1], true)
    } else {
        (line, false)
    }
}

/// `needle` occurs in `haystack` (an empty needle never does).
pub open spec fn occurs_in(haystack: Seq<u8>, needle: Seq<u8>) -> bool {
    needle.len() > 0 && exists|i: int|
        0 <= i && i + needle.len() <= haystack.len() && #[trigger] haystack.subrange(i, i + needle.len())
            == needle
}

/// True when `needle` occurs in `haystack`; an empty needle never does.
pub fn contains_bytes(haystack: &[u8], needle: &[u8]) -> (r: bool)
    ensures
        r == occurs_in(haystack@, needle@),
{
    if needle.len() == 0 || needle.len() > haystack.len() {
        return false;
    }
    let mut i: usize = 0;
    while i <= haystack.len() - needle.len()
        invariant
            needle@.len() > 0,
            needle@.len() <= haystack@.len(),
            i <= haystack@.len() - needle@.len() + 1,
            forall|k: int| 0 <= k < i ==> #[trigger] haystack@.subrange(k, k + needle@.len()) != needle@,
        decreases haystack@.len() - needle@.len() + 1 - i,
    {
        if bytes_eq(&haystack[i..i + needle.len()], needle) {
            return true;
        }
        i = i + 1;
    }
    false
}

/// The elision mark `~` jj draws where it leaves commits out.
pub const ELISION_CP: u32 = 0x7e;

/// Box-drawing characters and the elision `~`: what jj draws graph edges
/// with.
pub open spec fn edge_cp(cp: u32) -> bool {
    (0x2500 <= cp <= 0x257f) || cp == 0x7e
}

pub fn is_edge_char(cp: u32) -> (r: bool)
    ensures
        r == edge_cp(cp),
{
    (0x2500 <= cp && cp <= 0x257f) || cp == 0x7e
}

/// The horizontals `─ ┄ ┈`.
pub open spec fn horizontal_cp(cp: u32) -> bool {
    cp == 0x2500 || cp == 0x2504 || cp == 0x2508
}

pub fn is_horizontal_char(cp: u32) -> (r: bool)
    ensures
        r == horizontal_cp(cp),
{
    cp == 0x2500 || cp == 0x2504 || cp == 0x2508
}

/// An inter-column gap cell: odd, holding a space or a horizontal. These
/// are what `graph.collapse` drops.
pub open spec fn pad_cell(cell: int, cp: u32) -> bool {
    cell % 2 == 1 && (cp == 32 || horizontal_cp(cp))
}

pub fn is_pad_cell(cell: usize, cp: u32) -> (r: bool)
    ensures
        r == pad_cell(cell as int, cp),
{
    cell % 2 == 1 && (cp == 32 || is_horizontal_char(cp))
}

/// Index after every CSI escape that starts at `j` (one after another).
pub open spec fn skip_csis(s: Seq<u8>, j: int) -> int
    decreases s.len() - j,
{
    match csi_end(s, j) {
        Some(e) => if j < e <= s.len() { skip_csis(s, e) } else { j },
        None => j,
    }
}

pub proof fn lemma_skip_csis(s: Seq<u8>, j: int)
    requires
        0 <= j <= s.len(),
    ensures
        j <= skip_csis(s, j) <= s.len(),
        csi_end(s, skip_csis(s, j)) is None,
    decreases s.len() - j,
{
    match csi_end(s, j) {
        Some(e) => {
            lemma_csi_end_bounds(s, j);
            lemma_skip_csis(s, e);
        },
        None => {},
    }
}

/// Skip every CSI escape starting at `j`.
pub fn skip_all_csi(s: &[u8], j: usize) -> (r: usize)
    requires
        j <= s@.len(),
    ensures
        r as int == skip_csis(s@, j as int),
        j <= r <= s@.len(),
{
    proof { lemma_skip_csis(s@, j as int); }
    let mut k = j;
    let mut next = skip_csi(s, k);
    while next.is_some()
        invariant
            j <= k <= s@.len(),
            skip_csis(s@, k as int) == skip_csis(s@, j as int),
            match next {
                Some(e) => csi_end(s@, k as int) == Some(e as int) && k + 2 <= e <= s@.len(),
                None => csi_end(s@, k as int) is None,
            },
        decreases s@.len() - k,
    {
        k = next.unwrap();
        next = skip_csi(s, k);
    }
    k
}

/// A graph node: a non-space, non-edge glyph followed (past any escapes) by
/// a space or an edge. jj pads every graph column, so real content, which
/// always sits after the gap, never looks like this.
pub open spec fn node_at(s: Seq<u8>, pos: int, cp: u32, len: int) -> bool {
    &&& cp != 32
    &&& !edge_cp(cp)
    &&& {
        let j = skip_csis(s, pos + len);
        &&& 0 <= j < s.len()
        &&& (s[j] == 32 || edge_cp(decode_at(s, j).0))
    }
}

pub fn is_node_at(line: &[u8], pos: usize, cp: u32, len: usize) -> (r: bool)
    requires
        pos + len <= line@.len(),
    ensures
        r == node_at(line@, pos as int, cp, len as int),
{
    if cp == 32 || is_edge_char(cp) {
        return false;
    }
    let _n = line.len();
    let j = skip_all_csi(line, pos + len);
    if j >= line.len() {
        return false;
    }
    if line[j] == 32 {
        return true;
    }
    let (next_cp, _) = decode_utf8(line, j);
    is_edge_char(next_cp)
}

/// Whether a box-drawing (edge) glyph occurs in `s[i..]`, escapes skipped.
pub open spec fn graph_char_from(s: Seq<u8>, i: int) -> bool
    decreases s.len() - i,
{
    if i < 0 || i >= s.len() {
        false
    } else {
        match csi_end(s, i) {
            Some(e) => if i < e <= s.len() { graph_char_from(s, e) } else { false },
            None => {
                let (cp, n) = decode_at(s, i);
                edge_cp(cp) || (1 <= n && graph_char_from(s, i + n))
            },
        }
    }
}

/// True when the text holds a graph edge glyph.
pub fn has_graph_char(body: &[u8]) -> (r: bool)
    ensures
        r == graph_char_from(body@, 0),
{
    let mut i: usize = 0;
    while i < body.len()
        invariant
            i <= body@.len(),
            graph_char_from(body@, i as int) == graph_char_from(body@, 0),
        decreases body@.len() - i,
    {
        proof { lemma_decode_at_len(body@, i as int); }
        if let Some(after) = skip_csi(body, i) {
            i = after;
            continue;
        }
        let (cp, len) = decode_utf8(body, i);
        if is_edge_char(cp) {
            return true;
        }
        i = i + len;
    }
    false
}

/// Whether every visible cell of `s[i..]` is a space or an edge.
pub open spec fn graph_only_from(s: Seq<u8>, i: int) -> bool
    decreases s.len() - i,
{
    if i < 0 || i >= s.len() {
        true
    } else {
        match csi_end(s, i) {
            Some(e) => if i < e <= s.len() { graph_only_from(s, e) } else { true },
            None => {
                let (cp, n) = decode_at(s, i);
                (cp == 32 || edge_cp(cp)) && (1 <= n ==> graph_only_from(s, i + n))
            },
        }
    }
}

/// True for connector rows (`├─╯`, `│`, `~`): every visible cell is a
/// space or an edge. Prose with a stray box-drawing glyph fails.
pub fn is_graph_only(body: &[u8]) -> (r: bool)
    ensures
        r == graph_only_from(body@, 0),
{
    let mut i: usize = 0;
    while i < body.len()
        invariant
            i <= body@.len(),
            graph_only_from(body@, i as int) == graph_only_from(body@, 0),
        decreases body@.len() - i,
    {
        proof { lemma_decode_at_len(body@, i as int); }
        if let Some(after) = skip_csi(body, i) {
            i = after;
            continue;
        }
        let (cp, len) = decode_utf8(body, i);
        if cp != 32 && !is_edge_char(cp) {
            return false;
        }
        i = i + len;
    }
    true
}


/// Where a line's graph prefix ends and its content begins.
#[derive(Clone, Copy, Debug, PartialEq, Eq, Structural)]
pub struct Parsed {
    /// Byte offset of the gap after the graph prefix.
    pub graph_end: usize,
    /// Byte offset of the content, past the gap.
    pub content_start: usize,
    /// Cells the graph prefix takes as jj drew it.
    pub graph_col: usize,
    /// Cells it takes once `graph.collapse` drops the column gaps.
    pub graph_col_collapsed: usize,
    /// Whether the last graph glyph is an edge (else the node).
    pub last_is_edge: bool,
    /// The same, for the last glyph that survives collapse.
    pub last_is_edge_collapsed: bool,
}

/// Walk state of boundary detection.
pub struct BState {
    pub vis: int,
    pub kept: int,
    pub had: bool,
    pub lie: bool,
    pub liec: bool,
}

/// End of a run of spaces (escapes between them skipped) starting at `k`.
pub open spec fn space_end(s: Seq<u8>, k: int) -> int
    decreases s.len() - k,
{
    let j = skip_csis(s, k);
    if 0 <= k <= j < s.len() && s[j] == 32 { space_end(s, j + 1) } else { j }
}

/// Spaces in that run.
pub open spec fn space_count(s: Seq<u8>, k: int) -> int
    decreases s.len() - k,
{
    let j = skip_csis(s, k);
    if 0 <= k <= j < s.len() && s[j] == 32 { 1 + space_count(s, j + 1) } else { 0 }
}

/// Index just past the run's last space (`last` when it has none).
pub open spec fn space_last(s: Seq<u8>, k: int, last: int) -> int
    decreases s.len() - k,
{
    let j = skip_csis(s, k);
    if 0 <= k <= j < s.len() && s[j] == 32 { space_last(s, j + 1, j + 1) } else { last }
}

/// Even cells among the `c` cells from `a`: the spaces of a run that are a
/// column's own cell rather than the gap between columns.
pub open spec fn even_cells(a: int, c: int) -> int
    decreases c,
{
    if c <= 0 {
        0
    } else {
        even_cells(a, c - 1) + if (a + c - 1) % 2 == 0 { 1int } else { 0int }
    }
}

/// Boundary detection from `i`: graph glyphs (edges, and nodes recognised
/// by what follows them) and the spaces between them make up the prefix;
/// a space run followed by anything else ends it. A line whose prefix holds
/// no glyph, or that runs out, has no boundary.
pub open spec fn boundary_from(s: Seq<u8>, i: int, st: BState) -> Option<Parsed>
    decreases s.len() - i,
{
    if i < 0 || i >= s.len() {
        None
    } else {
        match csi_end(s, i) {
            Some(e) => if i < e <= s.len() { boundary_from(s, e, st) } else { None },
            None => {
                if s[i] == 32 {
                    let k = space_end(s, i);
                    let cnt = space_count(s, i);
                    if !(i < k) || k >= s.len() {
                        None
                    } else {
                        let (cp, n) = decode_at(s, k);
                        if edge_cp(cp) || node_at(s, k, cp, n) {
                            boundary_from(
                                s,
                                k,
                                BState {
                                    vis: st.vis + cnt,
                                    kept: st.kept + even_cells(st.vis, cnt),
                                    ..st
                                },
                            )
                        } else if !st.had {
                            None
                        } else {
                            Some(
                                Parsed {
                                    graph_end: i as usize,
                                    content_start: space_last(s, i, i) as usize,
                                    graph_col: st.vis as usize,
                                    graph_col_collapsed: st.kept as usize,
                                    last_is_edge: st.lie,
                                    last_is_edge_collapsed: st.liec,
                                },
                            )
                        }
                    }
                } else {
                    let (cp, n) = decode_at(s, i);
                    let edge = edge_cp(cp);
                    if (edge || node_at(s, i, cp, n)) && 1 <= n {
                        let keep = !pad_cell(st.vis, cp);
                        boundary_from(
                            s,
                            i + n,
                            BState {
                                vis: st.vis + 1,
                                kept: if keep { st.kept + 1 } else { st.kept },
                                had: true,
                                lie: edge,
                                liec: if keep { edge } else { st.liec },
                            },
                        )
                    } else {
                        None
                    }
                }
            },
        }
    }
}

pub open spec fn boundary(s: Seq<u8>) -> Option<Parsed> {
    boundary_from(s, 0, BState { vis: 0, kept: 0, had: false, lie: false, liec: false })
}

proof fn lemma_space_run(s: Seq<u8>, k: int, last: int)
    requires
        0 <= k <= s.len(),
    ensures
        k <= space_end(s, k) <= s.len(),
        0 <= space_count(s, k) <= space_end(s, k) - k,
        space_count(s, k) > 0 ==> k < space_last(s, k, last) <= space_end(s, k),
        space_count(s, k) == 0 ==> space_last(s, k, last) == last,
        space_end(s, k) == skip_csis(s, space_end(s, k)),
        space_end(s, k) < s.len() ==> s[space_end(s, k)] != 32,
    decreases s.len() - k,
{
    lemma_skip_csis(s, k);
    let j = skip_csis(s, k);
    if j < s.len() && s[j] == 32 {
        lemma_space_run(s, j + 1, j + 1);
        lemma_space_run(s, j + 1, last);
    } else {
        lemma_skip_csis(s, j);
        assert(csi_end(s, j) is None);
    }
}

/// A boundary lies inside the line: the gap starts before its end and the
/// content starts after the gap.
pub proof fn lemma_boundary_bounds(s: Seq<u8>, i: int, st: BState)
    requires
        0 <= i,
        s.len() <= usize::MAX,
    ensures
        boundary_from(s, i, st) matches Some(p) ==> p.graph_end < s.len() && p.graph_end
            <= p.content_start <= s.len(),
    decreases s.len() - i,
{
    if 0 <= i < s.len() {
        match csi_end(s, i) {
            Some(e) => {
                if i < e <= s.len() {
                    lemma_boundary_bounds(s, e, st);
                }
            },
            None => {
                if s[i] == 32 {
                    lemma_space_run(s, i, i);
                    let k = space_end(s, i);
                    let cnt = space_count(s, i);
                    if i < k && k < s.len() {
                        let (cp, n) = decode_at(s, k);
                        if edge_cp(cp) || node_at(s, k, cp, n) {
                            lemma_boundary_bounds(
                                s,
                                k,
                                BState { vis: st.vis + cnt, kept: st.kept + even_cells(st.vis, cnt), ..st },
                            );
                        }
                    }
                } else {
                    let (cp, n) = decode_at(s, i);
                    let edge = edge_cp(cp);
                    if (edge || node_at(s, i, cp, n)) && 1 <= n {
                        let keep = !pad_cell(st.vis, cp);
                        lemma_boundary_bounds(
                            s,
                            i + n,
                            BState {
                                vis: st.vis + 1,
                                kept: if keep { st.kept + 1 } else { st.kept },
                                had: true,
                                lie: edge,
                                liec: if keep { edge } else { st.liec },
                            },
                        );
                    }
                }
            },
        }
    }
}

proof fn lemma_even_cells(a: int, c: int)
    requires
        0 <= c,
    ensures
        0 <= even_cells(a, c) <= c,
    decreases c,
{
    if c > 0 {
        lemma_even_cells(a, c - 1);
    }
}

proof fn lemma_skip_width(s: Seq<u8>, j: int)
    requires
        0 <= j <= s.len(),
    ensures
        crate::dsl::width_from(s, j) == crate::dsl::width_from(s, skip_csis(s, j)),
    decreases s.len() - j,
{
    if let Some(e) = csi_end(s, j) {
        lemma_csi_end_bounds(s, j);
        lemma_skip_width(s, e);
    }
}

proof fn lemma_space_width(s: Seq<u8>, k: int)
    requires
        0 <= k <= s.len(),
    ensures
        crate::dsl::width_from(s, k) == space_count(s, k) + crate::dsl::width_from(s, space_end(s, k)),
    decreases s.len() - k,
{
    lemma_skip_csis(s, k);
    lemma_skip_width(s, k);
    let j = skip_csis(s, k);
    if j < s.len() && s[j] == 32 {
        crate::ansi::lemma_decode_at_len(s, j);
        lemma_space_width(s, j + 1);
    }
}

proof fn lemma_skip_lands(s: Seq<u8>, j: int)
    requires
        0 <= j <= s.len(),
        skip_csis(s, j) < s.len(),
    ensures
        crate::measure::lands(s, j, skip_csis(s, j)),
    decreases s.len() - j,
{
    if let Some(e) = csi_end(s, j) {
        lemma_csi_end_bounds(s, j);
        lemma_skip_csis(s, e);
        crate::measure::lemma_scan_final(s, j + 2);
        lemma_skip_lands(s, e);
    }
}

proof fn lemma_space_lands(s: Seq<u8>, k: int)
    requires
        0 <= k <= s.len(),
        space_end(s, k) < s.len(),
    ensures
        crate::measure::lands(s, k, space_end(s, k)),
    decreases s.len() - k,
{
    lemma_skip_csis(s, k);
    let j = skip_csis(s, k);
    lemma_space_run(s, k, k);
    if j < s.len() && s[j] == 32 {
        lemma_space_run(s, j + 1, j + 1);
        lemma_skip_lands(s, k);
        lemma_space_lands(s, j + 1);
        assert(crate::measure::lands(s, j + 1, j + 1));
        assert(crate::measure::lands(s, j, j + 1));
        crate::measure::lemma_lands_trans(s, j, j + 1, space_end(s, k));
        crate::measure::lemma_lands_trans(s, k, j, space_end(s, k));
    } else {
        lemma_skip_lands(s, k);
    }
}

proof fn lemma_boundary_geometry_from(s: Seq<u8>, i: int, st: BState)
    requires
        0 <= i <= s.len(),
        s.len() <= usize::MAX,
        0 <= st.kept <= st.vis <= i,
        st.had ==> st.vis >= 1,
        crate::dsl::width(s) == st.vis + crate::dsl::width_from(s, i),
    ensures
        boundary_from(s, i, st) matches Some(p) ==> {
            &&& s[p.graph_end as int] == 32
            &&& p.graph_end < p.content_start < s.len()
            &&& 1 <= p.graph_col
            &&& p.graph_col_collapsed <= p.graph_col
            &&& p.graph_col + crate::dsl::width_from(s, p.graph_end as int) == crate::dsl::width(s)
            &&& forall|m: int| p.graph_end <= m < p.content_start ==> s[m] == 32 || in_escape(s, m)
            &&& i <= p.graph_end
            &&& crate::measure::lands(s, i, p.graph_end as int)
        },
    decreases s.len() - i,
{
    if i < s.len() {
        match csi_end(s, i) {
            Some(e) => {
                if i < e <= s.len() {
                    lemma_boundary_geometry_from(s, e, st);
                    if boundary_from(s, e, st) is Some {
                        lemma_csi_end_bounds(s, i);
                        crate::measure::lemma_scan_final(s, i + 2);
                    }
                }
            },
            None => {
                if s[i] == 32 {
                    lemma_space_run(s, i, i);
                    lemma_space_width(s, i);
                    let k = space_end(s, i);
                    let cnt = space_count(s, i);
                    if i < k && k < s.len() {
                        let (cp, n) = decode_at(s, k);
                        if edge_cp(cp) || node_at(s, k, cp, n) {
                            lemma_even_cells(st.vis, cnt);
                            let st2 = BState { vis: st.vis + cnt, kept: st.kept + even_cells(st.vis, cnt), ..st };
                            lemma_boundary_geometry_from(s, k, st2);
                            if let Some(p) = boundary_from(s, k, st2) {
                                lemma_space_lands(s, i);
                                crate::measure::lemma_lands_trans(s, i, k, p.graph_end as int);
                            }
                        } else {
                            lemma_skip_csis(s, i);
                            assert(skip_csis(s, i) == i);
                            lemma_space_run(s, i + 1, i + 1);
                            assert(space_count(s, i) >= 1);
                            lemma_gap_bytes(s, i, i);
                        }
                    }
                } else {
                    crate::ansi::lemma_decode_at_len(s, i);
                    let (cp, n) = decode_at(s, i);
                    let edge = edge_cp(cp);
                    if (edge || node_at(s, i, cp, n)) && 1 <= n {
                        let keep = !pad_cell(st.vis, cp);
                        lemma_boundary_geometry_from(
                            s,
                            i + n,
                            BState {
                                vis: st.vis + 1,
                                kept: if keep { st.kept + 1 } else { st.kept },
                                had: true,
                                lie: edge,
                                liec: if keep { edge } else { st.liec },
                            },
                        );
                    }
                }
            },
        }
    }
}

/// Byte `m` lies inside a CSI escape.
pub open spec fn in_escape(s: Seq<u8>, m: int) -> bool {
    exists|q: int| #[trigger] csi_end(s, q) matches Some(e) && q <= m < e
}

proof fn lemma_skip_in_escape(s: Seq<u8>, k: int)
    requires
        0 <= k <= s.len(),
    ensures
        forall|m: int| k <= m < skip_csis(s, k) ==> in_escape(s, m),
    decreases s.len() - k,
{
    if let Some(e) = csi_end(s, k) {
        lemma_csi_end_bounds(s, k);
        lemma_skip_in_escape(s, e);
        assert forall|m: int| k <= m < skip_csis(s, k) implies in_escape(s, m) by {
            if m < e {
                assert(csi_end(s, k) matches Some(x) && k <= m < x);
            }
        }
    }
}

proof fn lemma_gap_bytes(s: Seq<u8>, k: int, last: int)
    requires
        0 <= k <= last <= s.len(),
        forall|m: int| k <= m < last ==> s[m] == 32 || in_escape(s, m),
    ensures
        forall|m: int| k <= m < space_last(s, k, last) ==> s[m] == 32 || in_escape(s, m),
    decreases s.len() - k,
{
    lemma_skip_csis(s, k);
    lemma_skip_in_escape(s, k);
    let j = skip_csis(s, k);
    if j < s.len() && s[j] == 32 {
        lemma_gap_bytes(s, j + 1, j + 1);
    }
}

/// Where a line's graph ends: the gap opens on a space, the content starts
/// past it and inside the line, the graph takes at least one cell, no more
/// once collapsed, and exactly the cells of the line's text before the gap;
/// every byte of the gap is a space or part of an escape.
pub proof fn lemma_boundary_geometry(s: Seq<u8>)
    requires
        s.len() <= usize::MAX,
    ensures
        boundary(s) matches Some(p) ==> {
            &&& s[p.graph_end as int] == 32
            &&& p.graph_end < p.content_start < s.len()
            &&& 1 <= p.graph_col
            &&& p.graph_col_collapsed <= p.graph_col
            &&& p.graph_col == crate::dsl::width(s.subrange(0, p.graph_end as int))
            &&& p.graph_col + crate::dsl::width_from(s, p.graph_end as int) == crate::dsl::width(s)
            &&& forall|m: int| p.graph_end <= m < p.content_start ==> s[m] == 32 || in_escape(s, m)
        },
{
    lemma_boundary_geometry_from(s, 0, BState { vis: 0, kept: 0, had: false, lie: false, liec: false });
    if let Some(p) = boundary(s) {
        crate::measure::lemma_prefix_width(s, 0, p.graph_end as int);
    }
}

/// Find where the graph prefix of a line ends and its content begins; see
/// `boundary_from`.
pub fn find_boundary(line: &[u8]) -> (r: Option<Parsed>)
    ensures
        r == boundary(line@),
{
    let n = line.len();
    let mut i: usize = 0;
    let mut vis_col: usize = 0;
    let mut kept_col: usize = 0;
    let mut had_graph = false;
    let mut last_is_edge = false;
    let mut last_is_edge_collapsed = false;
    while i < line.len()
        invariant
            n == line@.len(),
            i <= n,
            kept_col <= vis_col <= i,
            boundary_from(
                line@,
                i as int,
                BState {
                    vis: vis_col as int,
                    kept: kept_col as int,
                    had: had_graph,
                    lie: last_is_edge,
                    liec: last_is_edge_collapsed,
                },
            ) == boundary(line@),
        decreases n - i,
    {
        let ghost st = BState {
            vis: vis_col as int,
            kept: kept_col as int,
            had: had_graph,
            lie: last_is_edge,
            liec: last_is_edge_collapsed,
        };
        if let Some(after) = skip_csi(line, i) {
            i = after;
            continue;
        }
        if line[i] == 32 {
            let sep_start_byte = i;
            let mut k = i;
            let mut spaces: usize = 0;
            let mut last_space_end = i;
            proof { lemma_space_run(line@, i as int, i as int); }
            loop
                invariant
                    n == line@.len(),
                    sep_start_byte <= k <= n,
                    sep_start_byte == i,
                    space_end(line@, k as int) == space_end(line@, i as int),
                    spaces + space_count(line@, k as int) == space_count(line@, i as int),
                    space_last(line@, k as int, last_space_end as int) == space_last(line@, i as int, i as int),
                    spaces <= k - i,
                    last_space_end <= k,
                ensures
                    k as int == space_end(line@, i as int),
                    spaces as int == space_count(line@, i as int),
                    last_space_end as int == space_last(line@, i as int, i as int),
                    spaces <= k - i,
                    k <= n,
                decreases n - k,
            {
                proof { lemma_space_run(line@, k as int, last_space_end as int); }
                let j = skip_all_csi(line, k);
                if j < line.len() && line[j] == 32 {
                    spaces = spaces + 1;
                    k = j + 1;
                    last_space_end = k;
                } else {
                    proof {
                        lemma_skip_csis(line@, j as int);
                        assert(skip_csis(line@, j as int) == j);
                        assert(space_end(line@, k as int) == j);
                        assert(space_end(line@, j as int) == j);
                        assert(space_count(line@, k as int) == 0);
                        assert(space_last(line@, k as int, last_space_end as int) == last_space_end);
                    }
                    k = j;
                    break;
                }
            }
            proof {
                lemma_space_run(line@, k as int, last_space_end as int);
                lemma_space_run(line@, i as int, i as int);
            }
            proof { lemma_skip_csis(line@, k as int); }
            assert(k as int == space_end(line@, i as int));
            assert(spaces as int == space_count(line@, i as int));
            if k >= line.len() {
                return None;
            }
            proof { lemma_decode_at_len(line@, k as int); }
            let (cp, len) = decode_utf8(line, k);
            if is_edge_char(cp) || is_node_at(line, k, cp, len) {
                let mut evens: usize = 0;
                let mut c: usize = 0;
                while c < spaces
                    invariant
                        c <= spaces,
                        vis_col + spaces <= n,
                        evens as int == even_cells(vis_col as int, c as int),
                        evens <= c,
                    decreases spaces - c,
                {
                    if (vis_col + c) % 2 == 0 {
                        evens = evens + 1;
                    }
                    c = c + 1;
                }
                i = k;
                kept_col = kept_col + evens;
                vis_col = vis_col + spaces;
            } else {
                if !had_graph {
                    return None;
                }
                return Some(Parsed {
                    graph_end: sep_start_byte,
                    content_start: last_space_end,
                    graph_col: vis_col,
                    graph_col_collapsed: kept_col,
                    last_is_edge,
                    last_is_edge_collapsed,
                });
            }
        } else {
            proof { lemma_decode_at_len(line@, i as int); }
            let (cp, len) = decode_utf8(line, i);
            let edge = is_edge_char(cp);
            if edge || is_node_at(line, i, cp, len) {
                had_graph = true;
                last_is_edge = edge;
                i = i + len;
                if !is_pad_cell(vis_col, cp) {
                    kept_col = kept_col + 1;
                    last_is_edge_collapsed = edge;
                }
                vis_col = vis_col + 1;
            } else {
                return None;
            }
        }
    }
    None
}


// ---------------------------------------------------------------------------
// Restyling the graph prefix

/// The configured glyph that stands in for a graph edge codepoint.
pub open spec fn graph_glyph(cp: u32, c: ConfigView) -> Option<Seq<u8>> {
    if horizontal_cp(cp) {
        Some(glyph(c.graph_horizontal))
    } else if cp == 0x2502 {
        Some(glyph(c.graph_vertical))
    } else if cp == 0x250c || cp == 0x256d {
        Some(glyph(c.graph_top_left))
    } else if cp == 0x2510 || cp == 0x256e {
        Some(glyph(c.graph_top_right))
    } else if cp == 0x2514 || cp == 0x2570 {
        Some(glyph(c.graph_bottom_left))
    } else if cp == 0x2518 || cp == 0x256f {
        Some(glyph(c.graph_bottom_right))
    } else if cp == 0x251c {
        Some(glyph(c.graph_tee_right))
    } else if cp == 0x2524 {
        Some(glyph(c.graph_tee_left))
    } else if cp == 0x252c {
        Some(glyph(c.graph_tee_down))
    } else if cp == 0x2534 {
        Some(glyph(c.graph_tee_up))
    } else if cp == 0x253c {
        Some(glyph(c.graph_cross))
    } else if cp == 0x7e {
        Some(glyph(c.graph_elision))
    } else {
        None
    }
}

/// Every edge jj draws takes the configured glyph for its own shape: the
/// three horizontals `─ ┄ ┈` the horizontal, `│` the vertical, each corner
/// (square `┌ ┐ └ ┘` or rounded `╭ ╮ ╰ ╯`) the glyph for its own direction,
/// each tee the glyph for the side it opens to, `┼` the cross and `~` the
/// elision; any other codepoint has none.
pub proof fn lemma_edge_glyphs(c: ConfigView, cp: u32)
    ensures
        graph_glyph(0x2500, c) == Some(glyph(c.graph_horizontal)),
        graph_glyph(0x2504, c) == Some(glyph(c.graph_horizontal)),
        graph_glyph(0x2508, c) == Some(glyph(c.graph_horizontal)),
        graph_glyph(0x2502, c) == Some(glyph(c.graph_vertical)),
        graph_glyph(0x250c, c) == Some(glyph(c.graph_top_left)),
        graph_glyph(0x256d, c) == Some(glyph(c.graph_top_left)),
        graph_glyph(0x2510, c) == Some(glyph(c.graph_top_right)),
        graph_glyph(0x256e, c) == Some(glyph(c.graph_top_right)),
        graph_glyph(0x2514, c) == Some(glyph(c.graph_bottom_left)),
        graph_glyph(0x2570, c) == Some(glyph(c.graph_bottom_left)),
        graph_glyph(0x2518, c) == Some(glyph(c.graph_bottom_right)),
        graph_glyph(0x256f, c) == Some(glyph(c.graph_bottom_right)),
        graph_glyph(0x251c, c) == Some(glyph(c.graph_tee_right)),
        graph_glyph(0x2524, c) == Some(glyph(c.graph_tee_left)),
        graph_glyph(0x252c, c) == Some(glyph(c.graph_tee_down)),
        graph_glyph(0x2534, c) == Some(glyph(c.graph_tee_up)),
        graph_glyph(0x253c, c) == Some(glyph(c.graph_cross)),
        graph_glyph(0x7e, c) == Some(glyph(c.graph_elision)),
        !(cp == 0x2500 || cp == 0x2504 || cp == 0x2508 || cp == 0x2502 || cp == 0x250c || cp == 0x256d
            || cp == 0x2510 || cp == 0x256e || cp == 0x2514 || cp == 0x2570 || cp == 0x2518 || cp == 0x256f
            || cp == 0x251c || cp == 0x2524 || cp == 0x252c || cp == 0x2534 || cp == 0x253c || cp == 0x7e)
            ==> graph_glyph(cp, c) is None,
{
}

/// The configured glyph for a graph edge codepoint: `─ ┄ ┈`, `│`, the
/// corners (square and rounded), the tees, the cross and the elision `~`.
pub fn map_graph_char(cp: u32, c: &Config) -> (r: Option<&[u8]>)
    ensures
        match r {
            Some(g) => graph_glyph(cp, c@) == Some(g@),
            None => graph_glyph(cp, c@) is None,
        },
{
    if cp == 0x2500 || cp == 0x2504 || cp == 0x2508 {
        Some(c.graph_horizontal.as_str().as_bytes())
    } else if cp == 0x2502 {
        Some(c.graph_vertical.as_str().as_bytes())
    } else if cp == 0x250c || cp == 0x256d {
        Some(c.graph_top_left.as_str().as_bytes())
    } else if cp == 0x2510 || cp == 0x256e {
        Some(c.graph_top_right.as_str().as_bytes())
    } else if cp == 0x2514 || cp == 0x2570 {
        Some(c.graph_bottom_left.as_str().as_bytes())
    } else if cp == 0x2518 || cp == 0x256f {
        Some(c.graph_bottom_right.as_str().as_bytes())
    } else if cp == 0x251c {
        Some(c.graph_tee_right.as_str().as_bytes())
    } else if cp == 0x2524 {
        Some(c.graph_tee_left.as_str().as_bytes())
    } else if cp == 0x252c {
        Some(c.graph_tee_down.as_str().as_bytes())
    } else if cp == 0x2534 {
        Some(c.graph_tee_up.as_str().as_bytes())
    } else if cp == 0x253c {
        Some(c.graph_cross.as_str().as_bytes())
    } else if cp == 0x7e {
        Some(c.graph_elision.as_str().as_bytes())
    } else {
        None
    }
}

/// An edge glyph: its escapes without foreground colours, then the edge
/// colour, the configured glyph (or jj's own glyph when none is
/// configured), and a foreground reset.
pub open spec fn edge_bytes(cp: u32, raw: Seq<u8>, ansi: Seq<u8>, c: ConfigView) -> Seq<u8> {
    filtered(ansi) + c.edge_dim_on + match graph_glyph(cp, c) {
        Some(g) => g,
        None => raw,
    } + fg_reset()
}

/// A node glyph: forwarded with its escapes as jj drew it, or, given a
/// stack colour, in that colour instead of jj's foreground.
pub open spec fn node_bytes(raw: Seq<u8>, ansi: Seq<u8>, sgr: Option<Seq<u8>>) -> Seq<u8> {
    match sgr {
        None => ansi + raw,
        Some(color) => filtered(ansi) + color + raw + fg_reset(),
    }
}

fn emit_edge(cp: u32, raw: &[u8], ansi: &[u8], c: &Config, out: &mut Vec<u8>)
    ensures
        final(out)@ == old(out)@ + edge_bytes(cp, raw@, ansi@, c@),
{
    emit_without_fg(ansi, out);
    push_all(out, c.edge_dim_on.as_slice());
    match map_graph_char(cp, c) {
        Some(replacement) => push_all(out, replacement),
        None => push_all(out, raw),
    }
    push_all(out, &FG_RESET);
    assert(FG_RESET@ =~= fg_reset());
    assert(final(out)@ =~= old(out)@ + edge_bytes(cp, raw@, ansi@, c@));
}

fn emit_node(raw: &[u8], ansi: &[u8], sgr: Option<&[u8]>, out: &mut Vec<u8>)
    ensures
        final(out)@ == old(out)@ + node_bytes(raw@, ansi@, match sgr {
            Some(s) => Some(s@),
            None => None,
        }),
{
    match sgr {
        None => {
            push_all(out, ansi);
            push_all(out, raw);
            assert(final(out)@ =~= old(out)@ + (ansi@ + raw@));
        },
        Some(color) => {
            emit_without_fg(ansi, out);
            push_all(out, color);
            push_all(out, raw);
            push_all(out, &FG_RESET);
            assert(FG_RESET@ =~= fg_reset());
            assert(final(out)@ =~= old(out)@ + (filtered(ansi@) + color@ + raw@ + fg_reset()));
        },
    }
}

/// What abuts a pending space run on its right when it is flushed.
#[derive(Clone, Copy, PartialEq, Eq, Structural)]
pub enum RightSide {
    Node,
    Edge,
    NonGraph,
}

/// A pending run of spaces inside the graph prefix, and the graph context
/// to its left.
pub struct GraphRun {
    pub seen_node: bool,
    pub left_was_node: bool,
    pub start: Option<usize>,
    pub spaces: usize,
}

pub struct RunState {
    pub seen_node: bool,
    pub left_was_node: bool,
    pub start: Option<int>,
    pub spaces: int,
}

impl GraphRun {
    pub open spec fn state(&self) -> RunState {
        RunState {
            seen_node: self.seen_node,
            left_was_node: self.left_was_node,
            start: match self.start {
                Some(s) => Some(s as int),
                None => None,
            },
            spaces: self.spaces as int,
        }
    }

    fn new() -> (r: GraphRun)
        ensures
            r.state() == (RunState { seen_node: false, left_was_node: false, start: None, spaces: 0 }),
    {
        GraphRun { seen_node: false, left_was_node: false, start: None, spaces: 0 }
    }

    fn reset_line(&mut self)
        ensures
            final(self).state() == (RunState { seen_node: false, left_was_node: false, ..old(self).state() }),
    {
        self.seen_node = false;
        self.left_was_node = false;
    }
}

/// `s` with every space byte dropped.
pub open spec fn drop_spaces(s: Seq<u8>) -> Seq<u8>
    decreases s.len(),
{
    if s.len() == 0 {
        Seq::empty()
    } else {
        drop_spaces(s.drop_last()) + if s.last() != 32 { seq![s.last()] } else { Seq::empty() }
    }
}

/// The dash cells replacing a run: `dash-start` first when the run opens
/// next to a node and caps are on, `dash` for the rest.
pub open spec fn run_dashes(c: ConfigView, n: int, head_cap: bool) -> Seq<u8>
    decreases n,
{
    if n <= 0 {
        Seq::empty()
    } else {
        run_dashes(c, n - 1, head_cap) + if head_cap && n - 1 == 0 {
            glyph(c.dash_start)
        } else {
            glyph(c.dash)
        }
    }
}

/// The output once the pending run is flushed against `right`: a run that
/// lies between the line's node (or a later glyph) and another graph glyph
/// becomes dim dashes, except a single cell between two nodes; the escapes
/// buffered with the run are kept behind the dashes.
pub open spec fn flush_out(out: Seq<u8>, r: RunState, right: RightSide, c: ConfigView) -> Seq<u8> {
    match r.start {
        None => out,
        Some(start) => {
            let count = r.spaces;
            let right_graph = right == RightSide::Node || right == RightSide::Edge;
            if !(r.seen_node && right_graph && count > 0) {
                out
            } else if count == 1 && r.left_was_node && right == RightSide::Node {
                out
            } else {
                let head_cap = r.left_was_node && glyph(c.dash_start).len() > 0;
                out.subrange(0, start) + c.dim_on + run_dashes(c, count, head_cap) + fg_reset()
                    + drop_spaces(out.subrange(start, out.len() as int))
            }
        },
    }
}

/// The run once flushed: nothing pending.
pub open spec fn flushed(r: RunState) -> RunState {
    match r.start {
        None => r,
        Some(_) => RunState { start: None, spaces: 0, ..r },
    }
}

impl GraphRun {
    /// Replace the pending space run with dashes when the line has seen its
    /// node and the run ends at another graph glyph (see `flush_out`).
    fn flush(&mut self, out: &mut Vec<u8>, right: RightSide, c: &Config)
        requires
            old(self).start matches Some(st) ==> st <= old(out)@.len(),
        ensures
            final(out)@ == flush_out(old(out)@, old(self).state(), right, c@),
            final(self).state() == flushed(old(self).state()),
    {
        let start = match self.start {
            Some(s) => s,
            None => {
                return;
            },
        };
        self.start = None;
        let count = self.spaces;
        self.spaces = 0;
        let right_is_graph = right == RightSide::Node || right == RightSide::Edge;
        if !(self.seen_node && right_is_graph && count > 0) {
            return;
        }
        if count == 1 && self.left_was_node && right == RightSide::Node {
            return;
        }
        let ghost o = out@;
        let mut taken: Vec<u8> = Vec::new();
        push_all(&mut taken, &out.as_slice()[start..out.len()]);
        out.truncate(start);
        assert(out@ =~= o.subrange(0, start as int));
        push_all(out, c.dim_on.as_slice());
        let dash_start = c.dash_start.as_str().as_bytes();
        let dash = c.dash.as_str().as_bytes();
        let head_cap = self.left_was_node && dash_start.len() > 0;
        let ghost mid = out@;
        let mut idx: usize = 0;
        while idx < count
            invariant
                idx <= count,
                out@ == mid + run_dashes(c@, idx as int, head_cap),
                dash_start@ == glyph(c@.dash_start),
                dash@ == glyph(c@.dash),
            decreases count - idx,
        {
            if head_cap && idx == 0 {
                push_all(out, dash_start);
            } else {
                push_all(out, dash);
            }
            idx = idx + 1;
            assert(out@ =~= mid + run_dashes(c@, idx as int, head_cap));
        }
        push_all(out, &FG_RESET);
        assert(FG_RESET@ =~= fg_reset());
        let ghost mid2 = out@;
        let mut k: usize = 0;
        while k < taken.len()
            invariant
                k <= taken@.len(),
                out@ == mid2 + drop_spaces(taken@.subrange(0, k as int)),
            decreases taken@.len() - k,
        {
            let b = taken[k];
            if b != 32 {
                out.push(b);
            }
            k = k + 1;
            assert(taken@.subrange(0, k as int).drop_last() =~= taken@.subrange(0, k - 1));
            assert(out@ =~= mid2 + drop_spaces(taken@.subrange(0, k as int)));
        }
        assert(taken@.subrange(0, taken@.len() as int) =~= taken@);
        assert(taken@ =~= o.subrange(start as int, o.len() as int));
        assert(out@ =~= flush_out(o, old(self).state(), right, c@));
    }
}


/// State of the graph walk: the output so far, the pending space run, and
/// the cell column on the current line.
pub struct DimState {
    pub out: Seq<u8>,
    pub run: RunState,
    pub cell: int,
}

pub open spec fn opt_bytes(o: Option<&[u8]>) -> Option<Seq<u8>> {
    match o {
        Some(s) => Some(s@),
        None => None,
    }
}

/// The restyled graph from `i` on. Escapes in front of a glyph go out with
/// it, foreground colours dropped except ahead of a node. Spaces queue up
/// as a run that the next glyph flushes (see `flush_out`); a newline resets
/// the line. With `collapse`, gap cells (see `pad_cell`) lose their glyph
/// but keep their escapes. Edges are dimmed and swapped for the configured
/// glyphs; nodes pass through (or take `node_sgr`).
pub open spec fn dim_from(
    s: Seq<u8>,
    i: int,
    st: DimState,
    collapse: bool,
    node_sgr: Option<Seq<u8>>,
    c: ConfigView,
) -> Seq<u8>
    decreases s.len() - i,
{
    if i < 0 || i >= s.len() {
        flush_out(st.out, st.run, RightSide::NonGraph, c)
    } else {
        let j = skip_csis(s, i);
        if j < i || j > s.len() {
            st.out
        } else {
            let ansi = s.subrange(i, j);
            if j == s.len() {
                flush_out(st.out, st.run, RightSide::NonGraph, c) + filtered(ansi)
            } else if s[j] == 10 {
                let r1 = flushed(st.run);
                dim_from(
                    s,
                    j + 1,
                    DimState {
                        out: flush_out(st.out, st.run, RightSide::NonGraph, c) + filtered(ansi) + seq![10u8],
                        run: RunState { seen_node: false, left_was_node: false, ..r1 },
                        cell: 0,
                    },
                    collapse,
                    node_sgr,
                    c,
                )
            } else if s[j] == 32 {
                if collapse && pad_cell(st.cell, 32) {
                    dim_from(
                        s,
                        j + 1,
                        DimState { out: st.out + filtered(ansi), cell: st.cell + 1, ..st },
                        collapse,
                        node_sgr,
                        c,
                    )
                } else {
                    let start = match st.run.start {
                        Some(x) => Some(x),
                        None => Some(st.out.len() as int),
                    };
                    dim_from(
                        s,
                        j + 1,
                        DimState {
                            out: st.out + filtered(ansi) + seq![32u8],
                            run: RunState { start: start, spaces: st.run.spaces + 1, ..st.run },
                            cell: st.cell + 1,
                        },
                        collapse,
                        node_sgr,
                        c,
                    )
                }
            } else {
                let (cp, n) = decode_at(s, j);
                if n < 1 || j + n > s.len() {
                    st.out
                } else {
                    let raw = s.subrange(j, j + n);
                    if collapse && pad_cell(st.cell, cp) {
                        dim_from(
                            s,
                            j + n,
                            DimState { out: st.out + filtered(ansi), cell: st.cell + 1, ..st },
                            collapse,
                            node_sgr,
                            c,
                        )
                    } else {
                        let edge = edge_cp(cp);
                        let right = if edge { RightSide::Edge } else { RightSide::Node };
                        let o1 = flush_out(st.out, st.run, right, c);
                        let r1 = flushed(st.run);
                        if edge {
                            dim_from(
                                s,
                                j + n,
                                DimState {
                                    out: o1 + edge_bytes(cp, raw, ansi, c),
                                    run: RunState { left_was_node: false, ..r1 },
                                    cell: st.cell + 1,
                                },
                                collapse,
                                node_sgr,
                                c,
                            )
                        } else {
                            dim_from(
                                s,
                                j + n,
                                DimState {
                                    out: o1 + node_bytes(raw, ansi, node_sgr),
                                    run: RunState { seen_node: true, left_was_node: true, ..r1 },
                                    cell: st.cell + 1,
                                },
                                collapse,
                                node_sgr,
                                c,
                            )
                        }
                    }
                }
            }
        }
    }
}

/// The restyled graph, appended to `out`.
pub open spec fn dim_graph(
    out: Seq<u8>,
    s: Seq<u8>,
    collapse: bool,
    node_sgr: Option<Seq<u8>>,
    c: ConfigView,
) -> Seq<u8> {
    dim_from(
        s,
        0,
        DimState {
            out: out,
            run: RunState { seen_node: false, left_was_node: false, start: None, spaces: 0 },
            cell: 0,
        },
        collapse,
        node_sgr,
        c,
    )
}

proof fn lemma_flush_len(out: Seq<u8>, r: RunState, right: RightSide, c: ConfigView)
    requires
        r.start matches Some(st) ==> 0 <= st <= out.len(),
    ensures
        flush_out(out, r, right, c).len() >= 0,
{
}

/// Restyle a graph prefix: edges dimmed and swapped for the configured
/// glyphs, nodes forwarded (or put in `node_sgr`), spaces between graph
/// glyphs after the node dash-filled, jj's foreground colours dropped from
/// edges. With `collapse`, the gap cells between columns are dropped.
pub fn emit_dim_graph(bytes: &[u8], collapse: bool, node_sgr: Option<&[u8]>, c: &Config, out: &mut Vec<u8>)
    ensures
        final(out)@ == dim_graph(old(out)@, bytes@, collapse, opt_bytes(node_sgr), c@),
{
    let ghost total = dim_graph(old(out)@, bytes@, collapse, opt_bytes(node_sgr), c@);
    let n = bytes.len();
    let mut i: usize = 0;
    let mut cell: usize = 0;
    let mut run = GraphRun::new();
    while i < bytes.len()
        invariant
            n == bytes@.len(),
            i <= n,
            cell <= i,
            run.spaces <= i,
            run.start matches Some(st) ==> st <= out@.len(),
            dim_from(bytes@, i as int, DimState { out: out@, run: run.state(), cell: cell as int }, collapse, opt_bytes(node_sgr), c@) == total,
        decreases n - i,
    {
        let ansi_start = i;
        let ghost st0 = DimState { out: out@, run: run.state(), cell: cell as int };
        proof { lemma_skip_csis(bytes@, i as int); }
        i = skip_all_csi(bytes, i);
        let ansi = &bytes[ansi_start..i];
        if i >= bytes.len() {
            run.flush(out, RightSide::NonGraph, c);
            emit_without_fg(ansi, out);
            assert(out@ == total);
            assert(run.start is None);
            continue;
        }
        if bytes[i] == 10 {
            run.flush(out, RightSide::NonGraph, c);
            emit_without_fg(ansi, out);
            out.push(10);
            run.reset_line();
            cell = 0;
            i = i + 1;
            assert(out@ =~= flush_out(st0.out, st0.run, RightSide::NonGraph, c@) + filtered(ansi@) + seq![10u8]);
            continue;
        }
        if bytes[i] == 32 {
            if collapse && is_pad_cell(cell, 32) {
                emit_without_fg(ansi, out);
            } else {
                if run.start.is_none() {
                    run.start = Some(out.len());
                }
                emit_without_fg(ansi, out);
                out.push(32);
                run.spaces = run.spaces + 1;
                assert(out@ =~= st0.out + filtered(ansi@) + seq![32u8]);
            }
            cell = cell + 1;
            i = i + 1;
            continue;
        }
        proof { lemma_decode_at_len(bytes@, i as int); }
        let (cp, len) = decode_utf8(bytes, i);
        let raw = &bytes[i..i + len];
        if collapse && is_pad_cell(cell, cp) {
            emit_without_fg(ansi, out);
            cell = cell + 1;
            i = i + len;
            continue;
        }
        let cp_is_edge = is_edge_char(cp);
        let right = if cp_is_edge { RightSide::Edge } else { RightSide::Node };
        run.flush(out, right, c);
        if cp_is_edge {
            emit_edge(cp, raw, ansi, c, out);
            run.left_was_node = false;
        } else {
            emit_node(raw, ansi, node_sgr, out);
            run.seen_node = true;
            run.left_was_node = true;
        }
        i = i + len;
        cell = cell + 1;
    }
    run.flush(out, RightSide::NonGraph, c);
}


/// A line without its trailing newline.
pub open spec fn body_of(line: Seq<u8>) -> Seq<u8> {
    if line.len() > 0 && line.last() == 10 { line.drop_last() } else { line }
}

/// The newline a line ends with, if any.
pub open spec fn nl_of(line: Seq<u8>) -> Seq<u8> {
    if line.len() > 0 && line.last() == 10 { seq![10u8] } else { Seq::empty() }
}

/// One input line rendered: the graph prefix restyled and the rest copied;
/// with no boundary, a connector row is restyled whole (collapsing only
/// when it is nothing but graph) and anything else passes through.
pub open spec fn line_bytes(line: Seq<u8>, parsed: Option<Parsed>, c: ConfigView) -> Seq<u8> {
    let body = body_of(line);
    let main = match parsed {
        Some(p) => dim_graph(Seq::empty(), body.subrange(0, p.graph_end as int), c.graph_collapse, None, c)
            + body.subrange(p.graph_end as int, body.len() as int),
        None => if graph_char_from(body, 0) {
            dim_graph(Seq::empty(), body, c.graph_collapse && graph_only_from(body, 0), None, c)
        } else {
            body
        },
    };
    main + nl_of(line)
}

pub proof fn lemma_dim_graph_append(out: Seq<u8>, s: Seq<u8>, collapse: bool, node_sgr: Option<Seq<u8>>, c: ConfigView)
    ensures
        dim_graph(out, s, collapse, node_sgr, c) == out + dim_graph(Seq::empty(), s, collapse, node_sgr, c),
{
    lemma_dim_from_append(
        out,
        s,
        0,
        DimState {
            out: Seq::empty(),
            run: RunState { seen_node: false, left_was_node: false, start: None, spaces: 0 },
            cell: 0,
        },
        collapse,
        node_sgr,
        c,
    );
    assert(out + Seq::<u8>::empty() =~= out);
}

/// Shifting the output already written shifts the pending run with it.
pub open spec fn shift_state(prefix: Seq<u8>, st: DimState) -> DimState {
    DimState {
        out: prefix + st.out,
        run: RunState {
            start: match st.run.start {
                Some(x) => Some(x + prefix.len()),
                None => None,
            },
            ..st.run
        },
        cell: st.cell,
    }
}

proof fn lemma_flush_shift(prefix: Seq<u8>, out: Seq<u8>, r: RunState, right: RightSide, c: ConfigView)
    requires
        r.start matches Some(x) ==> 0 <= x <= out.len(),
    ensures
        flush_out(
            prefix + out,
            RunState {
                start: match r.start {
                    Some(x) => Some(x + prefix.len()),
                    None => None,
                },
                ..r
            },
            right,
            c,
        ) == prefix + flush_out(out, r, right, c),
{
    match r.start {
        Some(x) => {
            let o2 = prefix + out;
            assert(o2.subrange(0, x + prefix.len()) =~= prefix + out.subrange(0, x));
            assert(o2.subrange(x + prefix.len(), o2.len() as int) =~= out.subrange(x, out.len() as int));
            let count = r.spaces;
            let right_graph = right == RightSide::Node || right == RightSide::Edge;
            if !(r.seen_node && right_graph && count > 0) {
            } else if count == 1 && r.left_was_node && right == RightSide::Node {
            } else {
                let head_cap = r.left_was_node && glyph(c.dash_start).len() > 0;
                assert(flush_out(o2, RunState { start: Some(x + prefix.len()), ..r }, right, c) =~= prefix
                    + flush_out(out, r, right, c));
            }
        },
        None => {},
    }
}

proof fn lemma_dim_from_append(
    prefix: Seq<u8>,
    s: Seq<u8>,
    i: int,
    st: DimState,
    collapse: bool,
    node_sgr: Option<Seq<u8>>,
    c: ConfigView,
)
    requires
        st.run.start matches Some(x) ==> 0 <= x <= st.out.len(),
    ensures
        dim_from(s, i, shift_state(prefix, st), collapse, node_sgr, c) == prefix + dim_from(
            s,
            i,
            st,
            collapse,
            node_sgr,
            c,
        ),
    decreases s.len() - i,
{
    let st2 = shift_state(prefix, st);
    if i < 0 || i >= s.len() {
        lemma_flush_shift(prefix, st.out, st.run, RightSide::NonGraph, c);
    } else {
        let j = skip_csis(s, i);
        if j < i || j > s.len() {
        } else {
            let ansi = s.subrange(i, j);
            lemma_flush_shift(prefix, st.out, st.run, RightSide::NonGraph, c);
            if j == s.len() {
                assert(prefix + flush_out(st.out, st.run, RightSide::NonGraph, c) + filtered(ansi) =~= prefix
                    + (flush_out(st.out, st.run, RightSide::NonGraph, c) + filtered(ansi)));
            } else if s[j] == 10 {
                let o = flush_out(st.out, st.run, RightSide::NonGraph, c) + filtered(ansi) + seq![10u8];
                let r1 = flushed(st.run);
                let nst = DimState {
                    out: o,
                    run: RunState { seen_node: false, left_was_node: false, ..r1 },
                    cell: 0,
                };
                lemma_flush_len(st.out, st.run, RightSide::NonGraph, c);
                lemma_dim_from_append(prefix, s, j + 1, nst, collapse, node_sgr, c);
                assert(shift_state(prefix, nst).out =~= prefix + flush_out(st.out, st.run, RightSide::NonGraph, c)
                    + filtered(ansi) + seq![10u8]);
                assert(shift_state(prefix, nst) == DimState {
                    out: flush_out(st2.out, st2.run, RightSide::NonGraph, c) + filtered(ansi) + seq![10u8],
                    run: RunState { seen_node: false, left_was_node: false, ..flushed(st2.run) },
                    cell: 0,
                });
            } else if s[j] == 32 {
                if collapse && pad_cell(st.cell, 32) {
                    let nst = DimState { out: st.out + filtered(ansi), cell: st.cell + 1, ..st };
                    lemma_dim_from_append(prefix, s, j + 1, nst, collapse, node_sgr, c);
                    assert(shift_state(prefix, nst).out =~= st2.out + filtered(ansi));
                } else {
                    let start = match st.run.start {
                        Some(x) => Some(x),
                        None => Some(st.out.len() as int),
                    };
                    let nst = DimState {
                        out: st.out + filtered(ansi) + seq![32u8],
                        run: RunState { start: start, spaces: st.run.spaces + 1, ..st.run },
                        cell: st.cell + 1,
                    };
                    lemma_dim_from_append(prefix, s, j + 1, nst, collapse, node_sgr, c);
                    assert(shift_state(prefix, nst).out =~= st2.out + filtered(ansi) + seq![32u8]);
                }
            } else {
                let (cp, n) = decode_at(s, j);
                if n < 1 || j + n > s.len() {
                } else {
                    let raw = s.subrange(j, j + n);
                    if collapse && pad_cell(st.cell, cp) {
                        let nst = DimState { out: st.out + filtered(ansi), cell: st.cell + 1, ..st };
                        lemma_dim_from_append(prefix, s, j + n, nst, collapse, node_sgr, c);
                        assert(shift_state(prefix, nst).out =~= st2.out + filtered(ansi));
                    } else {
                        let edge = edge_cp(cp);
                        let right = if edge { RightSide::Edge } else { RightSide::Node };
                        lemma_flush_shift(prefix, st.out, st.run, right, c);
                        let o1 = flush_out(st.out, st.run, right, c);
                        let r1 = flushed(st.run);
                        if edge {
                            let nst = DimState {
                                out: o1 + edge_bytes(cp, raw, ansi, c),
                                run: RunState { left_was_node: false, ..r1 },
                                cell: st.cell + 1,
                            };
                            lemma_dim_from_append(prefix, s, j + n, nst, collapse, node_sgr, c);
                            assert(shift_state(prefix, nst).out =~= flush_out(st2.out, st2.run, right, c)
                                + edge_bytes(cp, raw, ansi, c));
                        } else {
                            let nst = DimState {
                                out: o1 + node_bytes(raw, ansi, node_sgr),
                                run: RunState { seen_node: true, left_was_node: true, ..r1 },
                                cell: st.cell + 1,
                            };
                            lemma_dim_from_append(prefix, s, j + n, nst, collapse, node_sgr, c);
                            assert(shift_state(prefix, nst).out =~= flush_out(st2.out, st2.run, right, c)
                                + node_bytes(raw, ansi, node_sgr));
                        }
                    }
                }
            }
        }
    }
}

/// Render one input line (see `line_bytes`).
pub fn emit_line(line: &[u8], parsed: Option<&Parsed>, c: &Config, out: &mut Vec<u8>)
    requires
        parsed matches Some(p) ==> p.graph_end <= body_of(line@).len(),
    ensures
        final(out)@ == old(out)@ + line_bytes(line@, match parsed {
            Some(p) => Some(*p),
            None => None,
        }, c@),
{
    let (body, trailing_nl) = strip_trailing_nl(line);
    let collapse = c.graph_collapse;
    let ghost o = out@;
    match parsed {
        Some(p) => {
            emit_dim_graph(&body[0..p.graph_end], collapse, None, c, out);
            proof { lemma_dim_graph_append(o, body@.subrange(0, p.graph_end as int), collapse, None, c@); }
            push_all(out, &body[p.graph_end..body.len()]);
        },
        None => {
            if has_graph_char(body) {
                let only = is_graph_only(body);
                emit_dim_graph(body, collapse && only, None, c, out);
                proof { lemma_dim_graph_append(o, body@, collapse && only, None, c@); }
            } else {
                push_all(out, body);
            }
        },
    }
    if trailing_nl {
        out.push(10);
    }
    let ghost pv = match parsed {
        Some(p) => Some(*p),
        None => None::<Parsed>,
    };
    assert(out@ =~= o + line_bytes(line@, pv, c@));
}


/// The cell of the first node glyph (a non-space, non-edge glyph) in a
/// graph prefix, counting from `cell` at `i`.
pub open spec fn node_cell_from(s: Seq<u8>, i: int, cell: int) -> Option<int>
    decreases s.len() - i,
{
    if i < 0 || i >= s.len() {
        None
    } else {
        match csi_end(s, i) {
            Some(e) => if i < e <= s.len() { node_cell_from(s, e, cell) } else { None },
            None => {
                let (cp, n) = decode_at(s, i);
                if cp != 32 && !edge_cp(cp) {
                    Some(cell)
                } else if 1 <= n {
                    node_cell_from(s, i + n, cell + 1)
                } else {
                    None
                }
            },
        }
    }
}

/// The graph cell a row's node sits in, i.e. its column in the graph.
pub fn node_cell(prefix: &[u8]) -> (r: Option<usize>)
    ensures
        match r {
            Some(k) => node_cell_from(prefix@, 0, 0) == Some(k as int),
            None => node_cell_from(prefix@, 0, 0) is None,
        },
{
    let n = prefix.len();
    let mut i: usize = 0;
    let mut cell: usize = 0;
    while i < prefix.len()
        invariant
            n == prefix@.len(),
            i <= n,
            cell <= i,
            node_cell_from(prefix@, i as int, cell as int) == node_cell_from(prefix@, 0, 0),
        decreases n - i,
    {
        proof { lemma_decode_at_len(prefix@, i as int); }
        if let Some(after) = skip_csi(prefix, i) {
            i = after;
            continue;
        }
        let (cp, len) = decode_utf8(prefix, i);
        if cp != 32 && !is_edge_char(cp) {
            return Some(cell);
        }
        i = i + len;
        cell = cell + 1;
    }
    None
}

/// `│` in UTF-8.
pub open spec fn vertical_bytes() -> Seq<u8> {
    seq![0xe2u8, 0x94u8, 0x82u8]
}

/// The prefix with every node glyph drawn as a vertical `│`; escapes,
/// spaces and edges stay.
pub open spec fn verticals_from(s: Seq<u8>, i: int) -> Seq<u8>
    decreases s.len() - i,
{
    if i < 0 || i >= s.len() {
        Seq::empty()
    } else {
        match csi_end(s, i) {
            Some(e) => if i < e <= s.len() { s.subrange(i, e) + verticals_from(s, e) } else { Seq::empty() },
            None => {
                let (cp, n) = decode_at(s, i);
                if 1 <= n && i + n <= s.len() {
                    (if cp != 32 && !edge_cp(cp) { vertical_bytes() } else { s.subrange(i, i + n) })
                        + verticals_from(s, i + n)
                } else {
                    Seq::empty()
                }
            },
        }
    }
}

/// A graph prefix with its node turned into a vertical, so the row drawn
/// from it continues every column.
pub fn graph_nodes_to_verticals(prefix: &[u8]) -> (r: Vec<u8>)
    ensures
        r@ == verticals_from(prefix@, 0),
{
    let mut out: Vec<u8> = Vec::new();
    let n = prefix.len();
    let mut i: usize = 0;
    while i < prefix.len()
        invariant
            n == prefix@.len(),
            i <= n,
            out@ + verticals_from(prefix@, i as int) == verticals_from(prefix@, 0),
        decreases n - i,
    {
        let ghost pre = out@;
        let ghost i0 = i as int;
        proof { lemma_decode_at_len(prefix@, i as int); }
        if let Some(after) = skip_csi(prefix, i) {
            push_all(&mut out, &prefix[i..after]);
            i = after;
        } else {
            let (cp, len) = decode_utf8(prefix, i);
            if cp != 32 && !is_edge_char(cp) {
                out.push(0xe2);
                out.push(0x94);
                out.push(0x82);
            } else {
                push_all(&mut out, &prefix[i..i + len]);
            }
            i = i + len;
        }
        assert(out@ + verticals_from(prefix@, i as int) =~= pre + verticals_from(prefix@, i0));
    }
    assert(out@ =~= verticals_from(prefix@, 0));
    out
}

} // verus!

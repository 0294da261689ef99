use vstd::prelude::*;
use vstd::utf8::encode_utf8;
use vstd::string::StringSliceAdditionalSpecFns;
use crate::ansi::{csi_end, decode_at, decode_utf8, skip_csi, fg_reset, FG_RESET};
use crate::bytes::{copy_bytes, push_all};
use crate::config::Config;
use crate::map::ByteMap;

verus! {

/// One piece of a template: literal text, a field's value, or an elastic
/// tab (which pads to a column shared across rows, then emits its field when
/// it names one).
#[derive(Debug)]
pub enum Node {
    Literal(Vec<u8>),
    Field(Vec<u8>),
    ElasticTab(Vec<u8>),
}

pub enum NodeView {
    Literal(Seq<u8>),
    Field(Seq<u8>),
    ElasticTab(Seq<u8>),
}

impl View for Node {
    type V = NodeView;

    open spec fn view(&self) -> NodeView {
        match self {
            Node::Literal(b) => NodeView::Literal(b@),
            Node::Field(n) => NodeView::Field(n@),
            Node::ElasticTab(n) => NodeView::ElasticTab(n@),
        }
    }
}

/// A parsed template: its nodes, left to right.
#[derive(Debug)]
pub struct Template {
    pub nodes: Vec<Node>,
}

pub open spec fn nodes_view(nodes: Seq<Node>) -> Seq<NodeView> {
    Seq::new(nodes.len(), |i: int| nodes[i]@)
}

impl View for Template {
    type V = Seq<NodeView>;

    open spec fn view(&self) -> Seq<NodeView> {
        nodes_view(self.nodes@)
    }
}

/// Field values of one commit row, keyed by field name.
pub type Fields = ByteMap<Vec<u8>>;

/// The gap between a row's graph and its content is the leading pad, drawn
/// against what is to its left: a row of one non-empty field renders as the
/// pad of `lead` cells and then the value.
pub proof fn lemma_leading_gap(
    name: Seq<u8>,
    fields: Map<Seq<u8>, Seq<u8>>,
    anchors: Seq<usize>,
    lead: usize,
    left: LeftSide,
    c: crate::config::ConfigView,
)
    requires
        field_value(fields, name).len() > 0,
    ensures
        row_bytes(seq![NodeView::Field(name)], fields, anchors, lead, left, c) == pad_bytes(lead as int, left, c)
            + field_value(fields, name),
{
    let nodes = seq![NodeView::Field(name)];
    let v = field_value(fields, name);
    let st0 = row_state(nodes, fields, anchors, lead, 0);
    let segs = row_state(nodes, fields, anchors, lead, 1).segs;
    assert(segs == st0.segs.push(SegView::Content(v)));
    assert(rule2(Seq::<SegView>::empty()) == Seq::<SegView>::empty());
    if lead > 0 {
        assert(segs =~= seq![SegView::Ws(lead), SegView::Content(v)]);
        assert(segs.drop_last() =~= seq![SegView::Ws(lead)]);
        assert(seq![SegView::Ws(lead)].drop_last() =~= Seq::<SegView>::empty());
        assert(rule2(seq![SegView::Ws(lead)]) =~= seq![SegView::Ws(lead)]);
        assert(rule2(segs) =~= segs);
        assert(pad_run_end(segs, 1) == 1);
        assert(pad_run_end(segs, 0) == 1);
        assert(pad_run_total(segs, 1) == 0);
        assert(pad_run_total(segs, 0) == lead);
        assert(emit_from(segs, 2, true, left, c) == Seq::<u8>::empty());
        assert(emit_from(segs, 1, false, left, c) == v + Seq::<u8>::empty());
        assert(v + Seq::<u8>::empty() =~= v);
    } else {
        assert(segs =~= seq![SegView::Content(v)]);
        assert(segs.drop_last() =~= Seq::<SegView>::empty());
        assert(rule2(segs) =~= segs);
        assert(emit_from(segs, 1, true, left, c) == Seq::<u8>::empty());
        assert(v + Seq::<u8>::empty() =~= v);
        assert(Seq::<u8>::empty() + v =~= v);
    }
}

/// The value a row holds for `name`, empty when it holds none.
pub open spec fn field_value(fields: Map<Seq<u8>, Seq<u8>>, name: Seq<u8>) -> Seq<u8> {
    if fields.contains_key(name) { fields[name] } else { Seq::empty() }
}

// ---------------------------------------------------------------------------
// Visible width

/// Cells `s[i..]` takes on screen: CSI escapes take none, every other
/// codepoint takes one.
pub open spec fn width_from(s: Seq<u8>, i: int) -> int
    decreases s.len() - i,
{
    if i < 0 || i >= s.len() {
        0
    } else {
        match csi_end(s, i) {
            Some(e) => if i < e <= s.len() { width_from(s, e) } else { 0 },
            None => {
                let n = decode_at(s, i).1;
                if 1 <= n && i + n <= s.len() { 1 + width_from(s, i + n) } else { 0 }
            },
        }
    }
}

pub open spec fn width(s: Seq<u8>) -> int {
    width_from(s, 0)
}

pub proof fn lemma_width_from_bounds(s: Seq<u8>, i: int)
    requires
        0 <= i,
    ensures
        0 <= width_from(s, i),
        i <= s.len() ==> width_from(s, i) <= s.len() - i,
    decreases s.len() - i,
{
    if i < s.len() {
        match csi_end(s, i) {
            Some(e) => {
                if i < e <= s.len() {
                    lemma_width_from_bounds(s, e);
                }
            },
            None => {
                let n = decode_at(s, i).1;
                if 1 <= n && i + n <= s.len() {
                    lemma_width_from_bounds(s, i + n);
                }
            },
        }
    }
}

/// Count visible cells: CSI escapes are skipped, each remaining codepoint
/// counts as one cell.
pub fn visible_width(bytes: &[u8]) -> (w: usize)
    ensures
        w == width(bytes@),
        w <= bytes@.len(),
{
    proof { lemma_width_from_bounds(bytes@, 0); }
    let mut i: usize = 0;
    let mut w: usize = 0;
    while i < bytes.len()
        invariant
            i <= bytes@.len(),
            w + width_from(bytes@, i as int) == width(bytes@),
            w <= i,
        decreases bytes.len() - i,
    {
        proof { lemma_width_from_bounds(bytes@, i as int); }
        if let Some(after) = skip_csi(bytes, i) {
            i = after;
            continue;
        }
        let (_cp, len) = decode_utf8(bytes, i);
        w += 1;
        i += len;
    }
    w
}

// ---------------------------------------------------------------------------
// Pass 1: anchors

/// Cells a node advances the natural column by. An arg-less elastic tab
/// looks up the empty name, which no parsed row carries.
pub open spec fn node_width(n: NodeView, fields: Map<Seq<u8>, Seq<u8>>) -> int {
    match n {
        NodeView::Literal(b) => width(b),
        NodeView::Field(name) => width(field_value(fields, name)),
        NodeView::ElasticTab(name) => width(field_value(fields, name)),
    }
}

/// Natural column after the first `k` nodes (nothing padded).
pub open spec fn natural_col(nodes: Seq<NodeView>, fields: Map<Seq<u8>, Seq<u8>>, k: int) -> int
    decreases k,
{
    if k <= 0 {
        0
    } else {
        natural_col(nodes, fields, k - 1) + node_width(nodes[k - 1], fields)
    }
}

/// Number of elastic tabs among the first `k` nodes.
pub open spec fn tabs_before(nodes: Seq<NodeView>, k: int) -> int
    decreases k,
{
    if k <= 0 {
        0
    } else {
        tabs_before(nodes, k - 1) + if nodes[k - 1] is ElasticTab { 1int } else { 0int }
    }
}

/// The natural columns of the row's elastic tabs, left to right: what each
/// tab would land at if nothing padded.
pub open spec fn tab_cols(nodes: Seq<NodeView>, fields: Map<Seq<u8>, Seq<u8>>, k: int) -> Seq<int>
    decreases k,
{
    if k <= 0 {
        Seq::empty()
    } else {
        let prev = tab_cols(nodes, fields, k - 1);
        if nodes[k - 1] is ElasticTab {
            prev.push(natural_col(nodes, fields, k - 1))
        } else {
            prev
        }
    }
}

/// `anchors` widened by one row's tab columns: element-wise maximum, grown
/// with zeros to cover every tab.
pub open spec fn widen(anchors: Seq<usize>, cols: Seq<int>) -> Seq<int> {
    let n = if anchors.len() >= cols.len() { anchors.len() } else { cols.len() };
    Seq::new(
        n as nat,
        |i: int|
            {
                let a: int = if i < anchors.len() { anchors[i] as int } else { 0 };
                let c: int = if i < cols.len() { cols[i] } else { 0 };
                if a >= c { a } else { c }
            },
    )
}

pub proof fn lemma_natural_col_mono(nodes: Seq<NodeView>, fields: Map<Seq<u8>, Seq<u8>>, j: int, k: int)
    requires
        0 <= j <= k,
    ensures
        natural_col(nodes, fields, j) <= natural_col(nodes, fields, k),
    decreases k,
{
    if j < k {
        lemma_natural_col_mono(nodes, fields, j, k - 1);
        lemma_node_width_nonneg(nodes[k - 1], fields);
    }
}

pub proof fn lemma_node_width_nonneg(n: NodeView, fields: Map<Seq<u8>, Seq<u8>>)
    ensures
        node_width(n, fields) >= 0,
{
    match n {
        NodeView::Literal(b) => lemma_width_from_bounds(b, 0),
        NodeView::Field(name) => lemma_width_from_bounds(field_value(fields, name), 0),
        NodeView::ElasticTab(name) => lemma_width_from_bounds(field_value(fields, name), 0),
    }
}

pub proof fn lemma_tab_cols_len(nodes: Seq<NodeView>, fields: Map<Seq<u8>, Seq<u8>>, k: int)
    requires
        k >= 0,
    ensures
        tab_cols(nodes, fields, k).len() == tabs_before(nodes, k),
        0 <= tabs_before(nodes, k) <= k,
        forall|t: int| 0 <= t < tab_cols(nodes, fields, k).len()
            ==> 0 <= #[trigger] tab_cols(nodes, fields, k)[t] <= natural_col(nodes, fields, k),
    decreases k,
{
    if k > 0 {
        lemma_tab_cols_len(nodes, fields, k - 1);
        lemma_natural_col_mono(nodes, fields, k - 1, k);
        lemma_natural_col_mono(nodes, fields, 0, k - 1);
    }
}

/// Record, per elastic tab, the widest natural column seen across rows.
/// Tabs are keyed by their left-to-right order in the template. Anchors
/// only ever grow.
pub fn collect_anchors(template: &Template, fields: &Fields, anchors: &mut Vec<usize>)
    requires
        natural_col(template@, fields_view(fields@), template@.len() as int) <= usize::MAX,
    ensures
        final(anchors)@.len() == widen(old(anchors)@, tab_cols(template@, fields_view(fields@), template@.len() as int)).len(),
        forall|i: int| 0 <= i < final(anchors)@.len() ==> final(anchors)@[i] as int == #[trigger] widen(
            old(anchors)@,
            tab_cols(template@, fields_view(fields@), template@.len() as int),
        )[i],
        final(anchors)@ == crate::rows::widen_usize(
            old(anchors)@,
            tab_cols(template@, fields_view(fields@), template@.len() as int),
        ),
{
    let ghost nodes = template@;
    let ghost f = fields_view(fields@);
    let ghost a0 = anchors@;
    let mut col: usize = 0;
    let mut tab_i: usize = 0;
    let mut k: usize = 0;
    proof {
        lemma_tab_cols_len(nodes, f, nodes.len() as int);
    }
    while k < template.nodes.len()
        invariant
            k <= template.nodes@.len(),
            nodes == template@,
            f == fields_view(fields@),
            natural_col(nodes, f, nodes.len() as int) <= usize::MAX,
            col == natural_col(nodes, f, k as int),
            tab_i == tabs_before(nodes, k as int),
            anchors@.len() == widen(a0, tab_cols(nodes, f, k as int)).len(),
            forall|i: int| 0 <= i < anchors@.len() ==> anchors@[i] as int == #[trigger] widen(
                a0,
                tab_cols(nodes, f, k as int),
            )[i],
        decreases template.nodes@.len() - k,
    {
        proof {
            lemma_tab_cols_len(nodes, f, k as int);
            lemma_natural_col_mono(nodes, f, k as int, k + 1);
            lemma_natural_col_mono(nodes, f, k + 1, nodes.len() as int);
        }
        let ghost cols_k = tab_cols(nodes, f, k as int);
        match &template.nodes[k] {
            Node::Literal(bytes) => {
                let vw = visible_width(bytes.as_slice());
                col = col + vw;
            },
            Node::Field(name) => {
                let vw = match fields.get(name.as_slice()) {
                    Some(v) => visible_width(v.as_slice()),
                    None => 0,
                };
                col = col + vw;
            },
            Node::ElasticTab(name) => {
                let ghost pre = anchors@;
                let ghost t = tab_i as int;
                assert(cols_k.len() == t);
                if tab_i >= anchors.len() {
                    anchors.push(0);
                }
                assert(anchors@[t] as int == (if t < a0.len() { a0[t] as int } else { 0int })) by {
                    if t < pre.len() {
                        assert(pre[t] as int == widen(a0, cols_k)[t]);
                    }
                }
                if col > anchors[tab_i] {
                    anchors.set(tab_i, col);
                }
                let vw = match fields.get(name.as_slice()) {
                    Some(v) => visible_width(v.as_slice()),
                    None => 0,
                };
                col = col + vw;
                tab_i = tab_i + 1;
                proof {
                    let cols_k1 = tab_cols(nodes, f, k + 1);
                    assert(cols_k1 == cols_k.push(natural_col(nodes, f, k as int)));
                    assert(anchors@.len() == widen(a0, cols_k1).len());
                    assert forall|i: int| 0 <= i < anchors@.len() implies anchors@[i] as int
                        == #[trigger] widen(a0, cols_k1)[i] by {
                        if i != t {
                            assert(widen(a0, cols_k1)[i] == widen(a0, cols_k)[i]);
                            assert(anchors@[i] == pre[i]);
                        }
                    }
                }
            },
        }
        k = k + 1;
    }
    proof {
        let w = crate::rows::widen_usize(a0, tab_cols(nodes, f, nodes.len() as int));
        assert forall|i: int| 0 <= i < anchors@.len() implies anchors@[i] == w[i] by {
            assert(anchors@[i] as int == widen(a0, tab_cols(nodes, f, nodes.len() as int))[i]);
        }
        assert(anchors@ =~= w);
    }
}


// ---------------------------------------------------------------------------
// Pass 2: segments

/// One chunk of a rendered row. `Content` passes through unchanged; `Ws`
/// is touchable whitespace (template spaces, the graph gap); `Anchor` is the
/// left pad in front of an elastic tab, which joins `Ws` for dash-fill but
/// survives Rule 2; `EmptyTag` marks a field that produced no bytes.
pub enum Seg {
    Content(Vec<u8>),
    Ws(usize),
    Anchor(usize),
    EmptyTag,
}

pub enum SegView {
    Content(Seq<u8>),
    Ws(usize),
    Anchor(usize),
    EmptyTag,
}

impl View for Seg {
    type V = SegView;

    open spec fn view(&self) -> SegView {
        match self {
            Seg::Content(b) => SegView::Content(b@),
            Seg::Ws(n) => SegView::Ws(*n),
            Seg::Anchor(n) => SegView::Anchor(*n),
            Seg::EmptyTag => SegView::EmptyTag,
        }
    }
}

pub open spec fn segs_view(v: Seq<Seg>) -> Seq<SegView> {
    Seq::new(v.len(), |i: int| v[i]@)
}

/// What sits immediately to the left of a whitespace run.
#[derive(Clone, Copy, Debug, PartialEq, Eq, Structural)]
pub enum LeftSide {
    GraphNode,
    GraphEdge,
    Content,
}

/// End of the run of bytes starting at `i` that are all spaces (`sp`) or all
/// non-spaces.
pub open spec fn run_end(s: Seq<u8>, i: int, sp: bool) -> int
    decreases s.len() - i,
{
    if i < 0 || i >= s.len() || (s[i] == 32) != sp {
        i
    } else {
        run_end(s, i + 1, sp)
    }
}

/// A literal split into alternating runs: `Ws` for spaces, `Content` for
/// everything else (multi-byte UTF-8 is never a space).
pub open spec fn lit_segs_from(s: Seq<u8>, i: int) -> Seq<SegView>
    decreases s.len() - i,
{
    if i < 0 || i >= s.len() {
        Seq::empty()
    } else {
        let sp = s[i] == 32;
        let e = run_end(s, i + 1, sp);
        if e <= i || e > s.len() {
            Seq::empty()
        } else if sp {
            seq![SegView::Ws((e - i) as usize)] + lit_segs_from(s, e)
        } else {
            seq![SegView::Content(s.subrange(i, e))] + lit_segs_from(s, e)
        }
    }
}

pub open spec fn lit_segs(s: Seq<u8>) -> Seq<SegView> {
    lit_segs_from(s, 0)
}

/// A run of spaces (or of non-spaces) ends inside `s`, on a byte of the
/// other kind or at the end.
pub proof fn lemma_run_end(s: Seq<u8>, i: int, sp: bool)
    requires
        0 <= i <= s.len(),
    ensures
        i <= run_end(s, i, sp) <= s.len(),
        forall|k: int| i <= k < run_end(s, i, sp) ==> (s[k] == 32) == sp,
        run_end(s, i, sp) < s.len() ==> (s[run_end(s, i, sp)] == 32) != sp,
    decreases s.len() - i,
{
    if i < s.len() && (s[i] == 32) == sp {
        lemma_run_end(s, i + 1, sp);
    }
}

/// Cells of touchable whitespace among the segments.
pub open spec fn ws_total(s: Seq<SegView>) -> int
    decreases s.len(),
{
    if s.len() == 0 {
        0
    } else {
        ws_total(s.drop_last()) + match s.last() {
            SegView::Ws(n) => n as int,
            SegView::Anchor(n) => n as int,
            _ => 0int,
        }
    }
}

/// Whitespace cells of one segment.
pub open spec fn seg_cells(x: SegView) -> int {
    match x {
        SegView::Ws(n) => n as int,
        SegView::Anchor(n) => n as int,
        _ => 0int,
    }
}

proof fn lemma_ws_total_push(s: Seq<SegView>, x: SegView)
    ensures
        ws_total(s.push(x)) == ws_total(s) + seg_cells(x),
{
    assert(s.push(x).drop_last() =~= s);
}

proof fn lemma_ws_total_append(a: Seq<SegView>, b: Seq<SegView>)
    ensures
        ws_total(a + b) == ws_total(a) + ws_total(b),
    decreases b.len(),
{
    if b.len() > 0 {
        lemma_ws_total_append(a, b.drop_last());
        assert((a + b).drop_last() =~= a + b.drop_last());
    }
}

proof fn lemma_lit_segs_ws(s: Seq<u8>, i: int)
    requires
        0 <= i <= s.len(),
        s.len() <= usize::MAX,
    ensures
        0 <= ws_total(lit_segs_from(s, i)) <= s.len() - i,
    decreases s.len() - i,
{
    if i < s.len() {
        let sp = s[i] == 32;
        lemma_run_end(s, i + 1, sp);
        let e = run_end(s, i + 1, sp);
        lemma_lit_segs_ws(s, e);
        let head = if sp {
            seq![SegView::Ws((e - i) as usize)]
        } else {
            seq![SegView::Content(s.subrange(i, e))]
        };
        lemma_ws_total_append(head, lit_segs_from(s, e));
        assert(head =~= Seq::<SegView>::empty().push(head[0]));
        lemma_ws_total_push(Seq::<SegView>::empty(), head[0]);
        assert(lit_segs_from(s, i) == head + lit_segs_from(s, e));
    }
}

/// Split a literal into `Ws` / `Content` segments, appended to `segs`.
fn push_literal_segs(bytes: &[u8], segs: &mut Vec<Seg>)
    requires
        bytes@.len() <= usize::MAX,
    ensures
        segs_view(final(segs)@) == segs_view(old(segs)@) + lit_segs(bytes@),
{
    let mut i: usize = 0;
    while i < bytes.len()
        invariant
            i <= bytes@.len(),
            segs_view(segs@) + lit_segs_from(bytes@, i as int) == segs_view(old(segs)@) + lit_segs(bytes@),
        decreases bytes.len() - i,
    {
        let ghost pre = segs_view(segs@);
        let ghost i0 = i as int;
        let sp = bytes[i] == 32;
        let start = i;
        i = i + 1;
        proof { lemma_run_end(bytes@, i as int, sp); }
        while i < bytes.len() && (bytes[i] == 32) == sp
            invariant
                start < i <= bytes@.len(),
                run_end(bytes@, i as int, sp) == run_end(bytes@, start + 1, sp),
            decreases bytes.len() - i,
        {
            i = i + 1;
        }
        assert(run_end(bytes@, i as int, sp) == i);
        if sp {
            segs.push(Seg::Ws(i - start));
        } else {
            let mut v: Vec<u8> = Vec::new();
            push_all(&mut v, &bytes[start..i]);
            segs.push(Seg::Content(v));
        }
        assert(segs_view(segs@) =~= pre + seq![segs@.last()@]);
        assert(segs_view(segs@) + lit_segs_from(bytes@, i as int) =~= pre + lit_segs_from(bytes@, i0));
    }
}

/// A field's segment: its bytes, or the empty-tag marker when it has none.
pub open spec fn value_seg(v: Seq<u8>) -> SegView {
    if v.len() == 0 { SegView::EmptyTag } else { SegView::Content(v) }
}

/// State of the row walk after some nodes: segments so far, the row's
/// natural column (pads included), and the number of tabs passed.
pub struct RowState {
    pub segs: Seq<SegView>,
    pub col: int,
    pub tab: int,
}

/// Pass 2 over the first `k` nodes. An elastic tab first left-pads the row
/// up to its recorded anchor, then (when it names a field) emits the value.
pub open spec fn row_state(
    nodes: Seq<NodeView>,
    fields: Map<Seq<u8>, Seq<u8>>,
    anchors: Seq<usize>,
    lead: usize,
    k: int,
) -> RowState
    decreases k,
{
    if k <= 0 {
        RowState {
            segs: if lead > 0 { seq![SegView::Ws(lead)] } else { Seq::empty() },
            col: 0,
            tab: 0,
        }
    } else {
        let st = row_state(nodes, fields, anchors, lead, k - 1);
        match nodes[k - 1] {
            NodeView::Literal(b) => RowState {
                segs: st.segs + lit_segs(b),
                col: st.col + width(b),
                tab: st.tab,
            },
            NodeView::Field(name) => {
                let v = field_value(fields, name);
                RowState { segs: st.segs.push(value_seg(v)), col: st.col + width(v), tab: st.tab }
            },
            NodeView::ElasticTab(name) => {
                let target: int = if st.tab < anchors.len() { anchors[st.tab] as int } else { st.col };
                let pad: int = if target > st.col { target - st.col } else { 0 };
                let segs1 = if pad > 0 { st.segs.push(SegView::Anchor(pad as usize)) } else { st.segs };
                if name.len() > 0 {
                    let v = field_value(fields, name);
                    RowState {
                        segs: segs1.push(value_seg(v)),
                        col: st.col + pad + width(v),
                        tab: st.tab + 1,
                    }
                } else {
                    RowState { segs: segs1, col: st.col + pad, tab: st.tab + 1 }
                }
            },
        }
    }
}

/// Bytes of literal text among the first `k` nodes.
pub open spec fn literal_bytes(nodes: Seq<NodeView>, k: int) -> int
    decreases k,
{
    if k <= 0 {
        0
    } else {
        literal_bytes(nodes, k - 1) + match nodes[k - 1] {
            NodeView::Literal(b) => b.len() as int,
            _ => 0int,
        }
    }
}

/// The row's segments fit the machine: every column and every run of
/// whitespace it can reach stays within `usize`.
pub open spec fn row_fits(
    nodes: Seq<NodeView>,
    fields: Map<Seq<u8>, Seq<u8>>,
    anchors: Seq<usize>,
    lead: usize,
) -> bool {
    &&& lead + literal_bytes(nodes, nodes.len() as int) + natural_col(nodes, fields, nodes.len() as int)
        <= usize::MAX
    &&& forall|t: int|
        0 <= t < anchors.len() ==> lead + literal_bytes(nodes, nodes.len() as int) + anchors[t]
            + natural_col(nodes, fields, nodes.len() as int) <= usize::MAX
}

pub proof fn lemma_literal_bytes_mono(nodes: Seq<NodeView>, j: int, k: int)
    requires
        0 <= j <= k,
    ensures
        0 <= literal_bytes(nodes, j) <= literal_bytes(nodes, k),
    decreases k,
{
    if j < k {
        lemma_literal_bytes_mono(nodes, j, k - 1);
    } else if k > 0 {
        lemma_literal_bytes_mono(nodes, 0, k - 1);
    }
}

/// Bounds that the walk keeps: the column stays within some anchor (or
/// nothing) plus the natural width, and whitespace within the gap, the
/// literals and the column.
proof fn lemma_row_state_bounds(
    nodes: Seq<NodeView>,
    fields: Map<Seq<u8>, Seq<u8>>,
    anchors: Seq<usize>,
    lead: usize,
    k: int,
)
    requires
        0 <= k <= nodes.len(),
        literal_bytes(nodes, nodes.len() as int) <= usize::MAX,
    ensures
        ({
            let st = row_state(nodes, fields, anchors, lead, k);
            &&& 0 <= st.col
            &&& 0 <= st.tab <= k
            &&& (st.col <= natural_col(nodes, fields, k) || exists|t: int|
                0 <= t < anchors.len() && st.col <= anchors[t] + natural_col(nodes, fields, k))
            &&& 0 <= ws_total(st.segs) <= lead + literal_bytes(nodes, k) + st.col
        }),
    decreases k,
{
    if k == 0 {
        if lead > 0 {
            assert(seq![SegView::Ws(lead)] =~= Seq::<SegView>::empty().push(SegView::Ws(lead)));
            lemma_ws_total_push(Seq::<SegView>::empty(), SegView::Ws(lead));
        }
    } else {
        lemma_row_state_bounds(nodes, fields, anchors, lead, k - 1);
        lemma_node_width_nonneg(nodes[k - 1], fields);
        lemma_natural_col_mono(nodes, fields, 0, k - 1);
        lemma_literal_bytes_mono(nodes, k, nodes.len() as int);
        lemma_literal_bytes_mono(nodes, k - 1, k);
        let st = row_state(nodes, fields, anchors, lead, k - 1);
        let nk1 = natural_col(nodes, fields, k - 1);
        let nk = natural_col(nodes, fields, k);
        assert(nk == nk1 + node_width(nodes[k - 1], fields));
        match nodes[k - 1] {
            NodeView::Literal(b) => {
                lemma_lit_segs_ws(b, 0);
                lemma_ws_total_append(st.segs, lit_segs(b));
                lemma_width_from_bounds(b, 0);
            },
            NodeView::Field(name) => {
                lemma_width_from_bounds(field_value(fields, name), 0);
                lemma_ws_total_push(st.segs, value_seg(field_value(fields, name)));
            },
            NodeView::ElasticTab(name) => {
                lemma_width_from_bounds(field_value(fields, name), 0);
                let target: int = if st.tab < anchors.len() { anchors[st.tab] as int } else { st.col };
                let st2 = row_state(nodes, fields, anchors, lead, k);
                if target > st.col {
                    let t = st.tab;
                    let pad = target - st.col;
                    assert(pad <= usize::MAX);
                    assert(st2.col <= anchors[t] + nk);
                    let segs1 = st.segs.push(SegView::Anchor(pad as usize));
                    lemma_ws_total_push(st.segs, SegView::Anchor(pad as usize));
                    if name.len() > 0 {
                        lemma_ws_total_push(segs1, value_seg(field_value(fields, name)));
                    }
                } else if name.len() > 0 {
                    lemma_ws_total_push(st.segs, value_seg(field_value(fields, name)));
                }
            },
        }
    }
}


// ---------------------------------------------------------------------------
// Rule 2

pub open spec fn has_content(s: Seq<SegView>) -> bool {
    exists|i: int| 0 <= i < s.len() && #[trigger] s[i] is Content
}

/// `s` with its trailing run of `Ws` segments dropped.
pub open spec fn drop_trailing_ws(s: Seq<SegView>) -> Seq<SegView>
    decreases s.len(),
{
    if s.len() > 0 && s.last() is Ws {
        drop_trailing_ws(s.drop_last())
    } else {
        s
    }
}

/// Rule 2: an empty field collapses every `Ws` segment between it and the
/// content to its left (an `Anchor` stops the collapse, and with no content
/// to its left nothing collapses); the empty-field marker itself goes.
pub open spec fn rule2(s: Seq<SegView>) -> Seq<SegView>
    decreases s.len(),
{
    if s.len() == 0 {
        Seq::empty()
    } else {
        let r = rule2(s.drop_last());
        if s.last() is EmptyTag {
            if has_content(r) { drop_trailing_ws(r) } else { r }
        } else {
            r.push(s.last())
        }
    }
}

proof fn lemma_drop_trailing_ws(s: Seq<SegView>)
    ensures
        ws_total(drop_trailing_ws(s)) <= ws_total(s),
        has_content(s) ==> has_content(drop_trailing_ws(s)),
        forall|i: int| 0 <= i < drop_trailing_ws(s).len() ==> drop_trailing_ws(s)[i] == s[i],
        drop_trailing_ws(s).len() <= s.len(),
        !(drop_trailing_ws(s).len() > 0 && drop_trailing_ws(s).last() is Ws),
    decreases s.len(),
{
    if s.len() > 0 && s.last() is Ws {
        let d = s.drop_last();
        lemma_drop_trailing_ws(d);
        lemma_ws_total_push(d, s.last());
        assert(s == d.push(s.last()));
        if has_content(s) {
            let i = choose|i: int| 0 <= i < s.len() && #[trigger] s[i] is Content;
            assert(d[i] is Content);
        }
        lemma_ws_total_nonneg(d);
    }
}

proof fn lemma_ws_total_nonneg(s: Seq<SegView>)
    ensures
        ws_total(s) >= 0,
    decreases s.len(),
{
    if s.len() > 0 {
        lemma_ws_total_nonneg(s.drop_last());
    }
}

pub proof fn lemma_rule2_ws(s: Seq<SegView>)
    ensures
        0 <= ws_total(rule2(s)) <= ws_total(s),
    decreases s.len(),
{
    lemma_ws_total_nonneg(s);
    if s.len() > 0 {
        let d = s.drop_last();
        lemma_rule2_ws(d);
        let r = rule2(d);
        lemma_drop_trailing_ws(r);
        lemma_ws_total_push(d, s.last());
        assert(s == d.push(s.last()));
        lemma_ws_total_push(r, s.last());
        lemma_ws_total_nonneg(rule2(s));
    }
}

/// Apply Rule 2 to the row's segments.
fn apply_rule_2(segs: &mut Vec<Seg>)
    ensures
        segs_view(final(segs)@) == rule2(segs_view(old(segs)@)),
{
    let mut input: Vec<Seg> = Vec::new();
    std::mem::swap(&mut input, segs);
    let ghost all = segs_view(input@);
    let n_exec = input.len();
    let ghost n = input@.len();
    let mut content = false;
    let mut k: usize = 0;
    while input.len() > 0
        invariant
            segs_view(segs@) == rule2(all.subrange(0, k as int)),
            content == has_content(segs_view(segs@)),
            k + input@.len() == n,
            n == n_exec,
            all.len() == n,
            segs_view(input@) == all.subrange(k as int, n as int),
        decreases input@.len(),
    {
        let ghost pre = segs_view(segs@);
        assert(segs_view(input@)[0] == all.subrange(k as int, n as int)[0]);
        let ghost in_pre = input@;
        let x = input.remove(0);
        assert forall|j: int| 0 <= j < input@.len() implies #[trigger] input@[j]@ == all[k + 1 + j] by {
            assert(input@[j] == in_pre[j + 1]);
            assert(segs_view(in_pre)[j + 1] == all.subrange(k as int, n as int)[j + 1]);
        }
        let ghost xv = x@;
        assert(xv == all[k as int]);
        assert(all.subrange(0, k + 1).drop_last() =~= all.subrange(0, k as int));
        match x {
            Seg::EmptyTag => {
                if content {
                    while segs.len() > 0 && matches!(segs[segs.len() - 1], Seg::Ws(_))
                        invariant
                            drop_trailing_ws(segs_view(segs@)) == drop_trailing_ws(pre),
                            has_content(segs_view(segs@)),
                        decreases segs@.len(),
                    {
                        let ghost before = segs_view(segs@);
                        segs.pop();
                        assert(segs_view(segs@) =~= before.drop_last());
                        assert(has_content(segs_view(segs@))) by {
                            let i = choose|i: int| 0 <= i < before.len() && #[trigger] before[i] is Content;
                            assert(segs_view(segs@)[i] is Content);
                        }
                    }
                    assert(drop_trailing_ws(segs_view(segs@)) == segs_view(segs@));
                }
            },
            _ => {
                let is_content = matches!(x, Seg::Content(_));
                segs.push(x);
                assert(segs_view(segs@) =~= pre.push(xv));
                if is_content {
                    assert(segs_view(segs@)[pre.len() as int] is Content);
                    content = true;
                } else {
                    assert(has_content(segs_view(segs@)) == has_content(pre)) by {
                        if has_content(segs_view(segs@)) {
                            let i = choose|i: int| 0 <= i < segs_view(segs@).len() && #[trigger] segs_view(segs@)[i] is Content;
                            assert(pre[i] is Content);
                        }
                        if has_content(pre) {
                            let i = choose|i: int| 0 <= i < pre.len() && #[trigger] pre[i] is Content;
                            assert(segs_view(segs@)[i] is Content);
                        }
                    }
                }
            },
        }
        k = k + 1;
        assert(segs_view(input@) =~= all.subrange(k as int, n as int));
    }
    assert(all.subrange(0, n as int) =~= all);
}

// ---------------------------------------------------------------------------
// Rule 3: dash fill

/// The UTF-8 bytes of a configured glyph.
pub open spec fn glyph(s: Seq<char>) -> Seq<u8> {
    encode_utf8(s)
}

/// Caps are on when `layout.dash-start` is set.
pub open spec fn caps_enabled(c: crate::config::ConfigView) -> bool {
    glyph(c.dash_start).len() > 0
}

/// The closing cell of a capped run: `layout.dash-end`, or a plain space
/// when it is empty, so the content always has a cell to its left.
pub open spec fn end_glyph(c: crate::config::ConfigView) -> Seq<u8> {
    if glyph(c.dash_end).len() > 0 { glyph(c.dash_end) } else { seq![32u8] }
}

/// The glyph for cell `idx` of a run of `cells`.
pub open spec fn pad_cell(c: crate::config::ConfigView, idx: int, cells: int, opening: bool) -> Seq<u8> {
    if opening && idx == 0 {
        glyph(c.dash_start)
    } else if caps_enabled(c) && idx + 1 == cells {
        end_glyph(c)
    } else {
        glyph(c.dash)
    }
}

/// Glyphs for the first `n` cells of a run of `cells`.
pub open spec fn pad_cells(c: crate::config::ConfigView, n: int, cells: int, opening: bool) -> Seq<u8>
    decreases n,
{
    if n <= 0 {
        Seq::empty()
    } else {
        pad_cells(c, n - 1, cells, opening) + pad_cell(c, n - 1, cells, opening)
    }
}

/// A whitespace run of `cells` cells with `left` to its left. One cell stays
/// a space (or, against a graph edge with caps on, the closing cell); longer
/// runs become dim dashes, opened by `dash-start` unless an edge abuts them
/// and closed by the closing cell (see `end_glyph`) when caps are on.
pub open spec fn pad_bytes(cells: int, left: LeftSide, c: crate::config::ConfigView) -> Seq<u8> {
    if cells <= 0 {
        Seq::empty()
    } else if cells == 1 {
        if !caps_enabled(c) {
            seq![32u8]
        } else if left == LeftSide::GraphEdge {
            c.dim_on + end_glyph(c) + fg_reset()
        } else {
            seq![32u8]
        }
    } else {
        let opening = caps_enabled(c) && left != LeftSide::GraphEdge;
        c.dim_on + pad_cells(c, cells, cells, opening) + fg_reset()
    }
}

/// `g` written `n` times.
pub open spec fn repeat(g: Seq<u8>, n: int) -> Seq<u8>
    decreases n,
{
    if n <= 0 { Seq::empty() } else { repeat(g, n - 1) + g }
}

proof fn lemma_pad_cells_body(c: crate::config::ConfigView, m: int, cells: int, opening: bool)
    requires
        1 <= m < cells,
    ensures
        pad_cells(c, m, cells, opening) == (if opening { glyph(c.dash_start) } else { glyph(c.dash) }) + repeat(
            glyph(c.dash),
            m - 1,
        ),
    decreases m,
{
    if m == 1 {
        assert(pad_cells(c, 0, cells, opening) == Seq::<u8>::empty());
        assert(repeat(glyph(c.dash), 0) == Seq::<u8>::empty());
        let first = if opening { glyph(c.dash_start) } else { glyph(c.dash) };
        assert(Seq::<u8>::empty() + first =~= first + Seq::<u8>::empty());
    } else {
        lemma_pad_cells_body(c, m - 1, cells, opening);
        let first = if opening { glyph(c.dash_start) } else { glyph(c.dash) };
        assert(first + repeat(glyph(c.dash), m - 2) + glyph(c.dash) =~= first + repeat(glyph(c.dash), m - 1));
    }
}

/// What a whitespace run of `n` cells is drawn as. With `layout.dash-start`
/// set: one cell stays a space, except against a graph edge, where it is the
/// closing cell; a longer run is dimmed and opens with `dash-start` (with
/// `dash` instead when a graph edge is to its left), carries `dash` in
/// every inner cell, and closes with `dash-end` (a space when that is
/// empty). With no `dash-start`: one cell is a space, a longer run is all
/// `dash`, dimmed.
pub proof fn lemma_pad_shape(n: int, left: LeftSide, c: crate::config::ConfigView)
    ensures
        n <= 0 ==> pad_bytes(n, left, c) == Seq::<u8>::empty(),
        n == 1 && !(caps_enabled(c) && left == LeftSide::GraphEdge) ==> pad_bytes(n, left, c) == seq![32u8],
        n == 1 && caps_enabled(c) && left == LeftSide::GraphEdge ==> pad_bytes(n, left, c) == c.dim_on + end_glyph(c)
            + fg_reset(),
        n >= 2 && caps_enabled(c) ==> pad_bytes(n, left, c) == c.dim_on + (if left == LeftSide::GraphEdge {
            glyph(c.dash)
        } else {
            glyph(c.dash_start)
        }) + repeat(glyph(c.dash), n - 2) + end_glyph(c) + fg_reset(),
        n >= 2 && !caps_enabled(c) ==> pad_bytes(n, left, c) == c.dim_on + repeat(glyph(c.dash), n) + fg_reset(),
        end_glyph(c) == (if glyph(c.dash_end).len() > 0 { glyph(c.dash_end) } else { seq![32u8] }),
{
    if n >= 2 {
        let opening = caps_enabled(c) && left != LeftSide::GraphEdge;
        lemma_pad_cells_body(c, n - 1, n, opening);
        if caps_enabled(c) {
            assert(pad_cell(c, n - 1, n, opening) == end_glyph(c));
        } else {
            assert(!opening);
            assert(pad_cell(c, n - 1, n, opening) == glyph(c.dash));
            assert(glyph(c.dash) + repeat(glyph(c.dash), n - 2) + glyph(c.dash) =~= repeat(glyph(c.dash), n)) by {
                lemma_repeat_front(glyph(c.dash), n - 1);
            }
        }
    }
}

proof fn lemma_repeat_front(g: Seq<u8>, n: int)
    requires
        n >= 1,
    ensures
        g + repeat(g, n - 1) == repeat(g, n),
    decreases n,
{
    if n == 1 {
        assert(g + Seq::<u8>::empty() =~= Seq::<u8>::empty() + g);
    } else {
        lemma_repeat_front(g, n - 1);
        assert(g + repeat(g, n - 1) =~= g + repeat(g, n - 2) + g);
    }
}

/// Fill a whitespace run of `cells` cells (see `pad_bytes`).
fn emit_pad(cells: usize, left: LeftSide, c: &Config, out: &mut Vec<u8>)
    ensures
        final(out)@ == old(out)@ + pad_bytes(cells as int, left, c@),
{
    if cells == 0 {
        assert(old(out)@ + pad_bytes(0, left, c@) =~= old(out)@);
        return;
    }
    let dash_start = c.dash_start.as_str().as_bytes();
    let space: &[u8] = &[32u8];
    let dash_end = if c.dash_end.as_str().as_bytes().len() > 0 { c.dash_end.as_str().as_bytes() } else { space };
    assert(dash_end@ == end_glyph(c@)) by {
        assert(space@ =~= seq![32u8]);
    }
    let dash = c.dash.as_str().as_bytes();
    let caps = dash_start.len() > 0;
    if cells == 1 {
        if !caps {
            out.push(32);
            return;
        }
        match left {
            LeftSide::GraphEdge => {
                push_all(out, c.dim_on.as_slice());
                push_all(out, dash_end);
                push_all(out, &FG_RESET);
                assert(FG_RESET@ =~= fg_reset());
                assert(final(out)@ =~= old(out)@ + pad_bytes(cells as int, left, c@));
            },
            _ => {
                out.push(32);
            },
        }
        return;
    }
    push_all(out, c.dim_on.as_slice());
    let ghost mid = out@;
    let opening_cap = caps && left != LeftSide::GraphEdge;
    let mut idx: usize = 0;
    while idx < cells
        invariant
            idx <= cells,
            out@ == mid + pad_cells(c@, idx as int, cells as int, opening_cap),
            dash_start@ == glyph(c@.dash_start),
            dash_end@ == end_glyph(c@),
            dash@ == glyph(c@.dash),
            caps == caps_enabled(c@),
        decreases cells - idx,
    {
        if opening_cap && idx == 0 {
            push_all(out, dash_start);
        } else if caps && idx + 1 == cells {
            push_all(out, dash_end);
        } else {
            push_all(out, dash);
        }
        idx = idx + 1;
        assert(out@ =~= mid + pad_cells(c@, idx as int, cells as int, opening_cap));
    }
    push_all(out, &FG_RESET);
    assert(FG_RESET@ =~= fg_reset());
    assert(final(out)@ =~= old(out)@ + pad_bytes(cells as int, left, c@));
}

/// The two-cell gap right of a root commit's graph node.
pub fn emit_node_pad(cells: usize, c: &Config, out: &mut Vec<u8>)
    ensures
        final(out)@ == old(out)@ + pad_bytes(cells as int, LeftSide::GraphNode, c@),
{
    emit_pad(cells, LeftSide::GraphNode, c, out);
}

pub open spec fn is_pad(x: SegView) -> bool {
    x is Ws || x is Anchor
}

/// End of the run of whitespace segments starting at `i`.
pub open spec fn pad_run_end(s: Seq<SegView>, i: int) -> int
    decreases s.len() - i,
{
    if 0 <= i < s.len() && is_pad(s[i]) { pad_run_end(s, i + 1) } else { i }
}

/// Cells in the run of whitespace segments starting at `i`.
pub open spec fn pad_run_total(s: Seq<SegView>, i: int) -> int
    decreases s.len() - i,
{
    if 0 <= i < s.len() && is_pad(s[i]) { seg_cells(s[i]) + pad_run_total(s, i + 1) } else { 0 }
}

/// Bytes for the segments from `i` on: content verbatim, every maximal run
/// of adjacent `Ws`/`Anchor` as one dash-filled pad. `content` tells whether
/// content already went out, which decides what the run sees to its left.
pub open spec fn emit_from(
    s: Seq<SegView>,
    i: int,
    content: bool,
    lead: LeftSide,
    c: crate::config::ConfigView,
) -> Seq<u8>
    decreases s.len() - i,
{
    if i < 0 || i >= s.len() {
        Seq::empty()
    } else {
        match s[i] {
            SegView::Content(b) => b + emit_from(s, i + 1, true, lead, c),
            SegView::EmptyTag => emit_from(s, i + 1, content, lead, c),
            _ => {
                let e = pad_run_end(s, i);
                if e <= i || e > s.len() {
                    Seq::empty()
                } else {
                    pad_bytes(
                        pad_run_total(s, i),
                        if content { LeftSide::Content } else { lead },
                        c,
                    ) + emit_from(s, e, content, lead, c)
                }
            },
        }
    }
}

proof fn lemma_pad_run(s: Seq<SegView>, i: int)
    requires
        0 <= i <= s.len(),
    ensures
        i <= pad_run_end(s, i) <= s.len(),
        0 <= pad_run_total(s, i) <= ws_total(s.subrange(i, s.len() as int)),
        i < s.len() && is_pad(s[i]) ==> i < pad_run_end(s, i),
    decreases s.len() - i,
{
    lemma_ws_total_nonneg(s.subrange(i, s.len() as int));
    if i < s.len() && is_pad(s[i]) {
        lemma_pad_run(s, i + 1);
        let tail = s.subrange(i + 1, s.len() as int);
        assert(s.subrange(i, s.len() as int) =~= seq![s[i]] + tail);
        lemma_ws_total_append(seq![s[i]], tail);
        assert(seq![s[i]] =~= Seq::<SegView>::empty().push(s[i]));
        lemma_ws_total_push(Seq::<SegView>::empty(), s[i]);
    }
}

proof fn lemma_ws_total_suffix(s: Seq<SegView>, i: int)
    requires
        0 <= i <= s.len(),
    ensures
        ws_total(s.subrange(i, s.len() as int)) <= ws_total(s),
{
    assert(s =~= s.subrange(0, i) + s.subrange(i, s.len() as int));
    lemma_ws_total_append(s.subrange(0, i), s.subrange(i, s.len() as int));
    lemma_ws_total_nonneg(s.subrange(0, i));
}

/// Emit segments, combining adjacent whitespace into single dash-fill runs.
fn emit_segs(segs: &Vec<Seg>, leading_left: LeftSide, c: &Config, out: &mut Vec<u8>)
    requires
        ws_total(segs_view(segs@)) <= usize::MAX,
    ensures
        final(out)@ == old(out)@ + emit_from(segs_view(segs@), 0, false, leading_left, c@),
{
    let ghost sv = segs_view(segs@);
    let mut i: usize = 0;
    let mut content_emitted = false;
    while i < segs.len()
        invariant
            i <= segs@.len(),
            sv == segs_view(segs@),
            ws_total(sv) <= usize::MAX,
            out@ + emit_from(sv, i as int, content_emitted, leading_left, c@) == old(out)@ + emit_from(
                sv,
                0,
                false,
                leading_left,
                c@,
            ),
        decreases segs@.len() - i,
    {
        let ghost pre = out@;
        let ghost i0 = i as int;
        let ghost ce0 = content_emitted;
        assert(sv[i0] == segs@[i0]@);
        match &segs[i] {
            Seg::Content(bytes) => {
                push_all(out, bytes.as_slice());
                content_emitted = true;
                i = i + 1;
                assert(out@ + emit_from(sv, i as int, content_emitted, leading_left, c@) =~= pre
                    + emit_from(sv, i0, ce0, leading_left, c@));
            },
            Seg::EmptyTag => {
                i = i + 1;
            },
            _ => {
                proof {
                    lemma_pad_run(sv, i0);
                    lemma_ws_total_suffix(sv, i0);
                }
                let mut total: usize = 0;
                while i < segs.len() && (matches!(segs[i], Seg::Ws(_)) || matches!(segs[i], Seg::Anchor(_)))
                    invariant
                        i0 <= i <= segs@.len(),
                        sv == segs_view(segs@),
                        total + pad_run_total(sv, i as int) == pad_run_total(sv, i0),
                        pad_run_total(sv, i0) <= usize::MAX,
                        pad_run_end(sv, i as int) == pad_run_end(sv, i0),
                        pad_run_total(sv, i as int) >= 0,
                    decreases segs@.len() - i,
                {
                    assert(sv[i as int] == segs@[i as int]@);
                    proof { lemma_pad_run(sv, i + 1); }
                    match &segs[i] {
                        Seg::Ws(n) => { total = total + *n; },
                        Seg::Anchor(n) => { total = total + *n; },
                        _ => {},
                    }
                    i = i + 1;
                }
                if i < segs.len() {
                    assert(sv[i as int] == segs@[i as int]@);
                }
                let left = if content_emitted { LeftSide::Content } else { leading_left };
                emit_pad(total, left, c, out);
                assert(out@ + emit_from(sv, i as int, content_emitted, leading_left, c@) =~= pre
                    + emit_from(sv, i0, ce0, leading_left, c@));
            },
        }
    }
}


// ---------------------------------------------------------------------------
// Rendering a row

/// The bytes one row renders to: pass-2 segments, Rule 2, then dash fill.
pub open spec fn row_bytes(
    nodes: Seq<NodeView>,
    fields: Map<Seq<u8>, Seq<u8>>,
    anchors: Seq<usize>,
    lead: usize,
    left: LeftSide,
    c: crate::config::ConfigView,
) -> Seq<u8> {
    emit_from(rule2(row_state(nodes, fields, anchors, lead, nodes.len() as int).segs), 0, false, left, c)
}

/// The value a row holds for `name`, empty when it holds none.
fn value_of<'a>(fields: &'a Fields, name: &[u8]) -> (r: &'a [u8])
    ensures
        r@ == field_value(fields_view(fields@), name@),
{
    match fields.get(name) {
        Some(v) => v.as_slice(),
        None => {
            let e: &[u8] = &[];
            assert(e@ =~= Seq::<u8>::empty());
            e
        },
    }
}

fn value_segment(v: &[u8]) -> (r: Seg)
    ensures
        r@ == value_seg(v@),
{
    if v.len() == 0 {
        Seg::EmptyTag
    } else {
        let mut b: Vec<u8> = Vec::new();
        push_all(&mut b, v);
        Seg::Content(b)
    }
}

/// Render one row under the four-rule model: leading whitespace is kept
/// (1); an empty field collapses the whitespace between it and the content
/// to its left (2); every remaining whitespace run is dash-filled (3);
/// field values pass through untouched (4). `leading_pad` is the
/// graph-to-content gap, which joins the template's own whitespace.
pub fn render_row(
    template: &Template,
    fields: &Fields,
    leading_pad: usize,
    leading_left: LeftSide,
    anchors: &[usize],
    c: &Config,
    out: &mut Vec<u8>,
)
    requires
        row_fits(template@, fields_view(fields@), anchors@, leading_pad),
    ensures
        final(out)@ == old(out)@ + row_bytes(template@, fields_view(fields@), anchors@, leading_pad, leading_left, c@),
{
    let ghost nodes = template@;
    let ghost f = fields_view(fields@);
    let ghost an = anchors@;
    let ghost n = nodes.len() as int;
    let mut segs: Vec<Seg> = Vec::new();
    if leading_pad > 0 {
        segs.push(Seg::Ws(leading_pad));
    }
    assert(segs_view(segs@) =~= row_state(nodes, f, an, leading_pad, 0).segs);
    let mut col: usize = 0;
    let mut tab_i: usize = 0;
    let mut k: usize = 0;
    proof {
        lemma_literal_bytes_mono(nodes, 0, n);
        lemma_natural_col_mono(nodes, f, 0, n);
    }
    while k < template.nodes.len()
        invariant
            k <= template.nodes@.len(),
            nodes == template@,
            f == fields_view(fields@),
            an == anchors@,
            n == nodes.len(),
            row_fits(nodes, f, an, leading_pad),
            literal_bytes(nodes, n) <= usize::MAX,
            segs_view(segs@) == row_state(nodes, f, an, leading_pad, k as int).segs,
            col == row_state(nodes, f, an, leading_pad, k as int).col,
            tab_i == row_state(nodes, f, an, leading_pad, k as int).tab,
        decreases template.nodes@.len() - k,
    {
        proof {
            lemma_row_state_bounds(nodes, f, an, leading_pad, k + 1);
            lemma_row_state_bounds(nodes, f, an, leading_pad, k as int);
            lemma_natural_col_mono(nodes, f, k + 1, n);
            lemma_literal_bytes_mono(nodes, k + 1, n);
        }
        let ghost st = row_state(nodes, f, an, leading_pad, k as int);
        let ghost st1 = row_state(nodes, f, an, leading_pad, k + 1);
        let ghost pre = segs_view(segs@);
        assert(nodes[k as int] == template.nodes@[k as int]@);
        assert(st1.col <= usize::MAX) by {
            if !(st1.col <= natural_col(nodes, f, k + 1)) {
                let t = choose|t: int| 0 <= t < an.len() && st1.col <= an[t] + natural_col(nodes, f, k + 1);
                assert(leading_pad + literal_bytes(nodes, n) + an[t] + natural_col(nodes, f, n) <= usize::MAX);
            }
        }
        match &template.nodes[k] {
            Node::Literal(b) => {
                col = col + visible_width(b.as_slice());
                push_literal_segs(b.as_slice(), &mut segs);
            },
            Node::Field(name) => {
                let value = value_of(fields, name.as_slice());
                col = col + visible_width(value);
                segs.push(value_segment(value));
                assert(segs_view(segs@) =~= pre.push(value_seg(value@)));
            },
            Node::ElasticTab(name) => {
                let anchor_target = if tab_i < anchors.len() { anchors[tab_i] } else { col };
                let left_pad = if anchor_target > col { anchor_target - col } else { 0 };
                if left_pad > 0 {
                    segs.push(Seg::Anchor(left_pad));
                    col = col + left_pad;
                }
                let ghost mid = segs_view(segs@);
                assert(mid =~= (if left_pad > 0 { pre.push(SegView::Anchor(left_pad)) } else { pre }));
                if name.len() > 0 {
                    let value = value_of(fields, name.as_slice());
                    let vw = visible_width(value);
                    segs.push(value_segment(value));
                    assert(segs_view(segs@) =~= mid.push(value_seg(value@)));
                    col = col + vw;
                }
                tab_i = tab_i + 1;
            },
        }
        k = k + 1;
    }
    proof {
        lemma_row_state_bounds(nodes, f, an, leading_pad, n);
        let stn = row_state(nodes, f, an, leading_pad, n);
        if !(stn.col <= natural_col(nodes, f, n)) {
            let t = choose|t: int| 0 <= t < an.len() && stn.col <= an[t] + natural_col(nodes, f, n);
            assert(leading_pad + literal_bytes(nodes, n) + an[t] + natural_col(nodes, f, n) <= usize::MAX);
        }
        lemma_rule2_ws(segs_view(segs@));
    }
    apply_rule_2(&mut segs);
    emit_segs(&segs, leading_left, c, out);
}


// ---------------------------------------------------------------------------
// `%{elastic_tab()}%{X}` is `%{elastic_tab(X)}`

/// Pass 1 and pass 2 over the first `k` nodes only look at those nodes.
pub proof fn lemma_same_prefix(
    a: Seq<NodeView>,
    b: Seq<NodeView>,
    fields: Map<Seq<u8>, Seq<u8>>,
    anchors: Seq<usize>,
    lead: usize,
    k: int,
)
    requires
        0 <= k <= a.len(),
        k <= b.len(),
        forall|i: int| 0 <= i < k ==> a[i] == b[i],
    ensures
        row_state(a, fields, anchors, lead, k) == row_state(b, fields, anchors, lead, k),
        natural_col(a, fields, k) == natural_col(b, fields, k),
        tab_cols(a, fields, k) == tab_cols(b, fields, k),
    decreases k,
{
    if k > 0 {
        lemma_same_prefix(a, b, fields, anchors, lead, k - 1);
    }
}

proof fn lemma_shifted_tail(
    a: Seq<NodeView>,
    b: Seq<NodeView>,
    fields: Map<Seq<u8>, Seq<u8>>,
    anchors: Seq<usize>,
    lead: usize,
    p: int,
    j: int,
)
    requires
        0 <= p,
        0 <= j,
        p + 1 + j <= a.len(),
        a.len() + 1 == b.len(),
        forall|i: int| p + 1 <= i < a.len() ==> #[trigger] a[i] == b[i + 1],
        row_state(a, fields, anchors, lead, p + 1) == row_state(b, fields, anchors, lead, p + 2),
        natural_col(a, fields, p + 1) == natural_col(b, fields, p + 2),
        tab_cols(a, fields, p + 1) == tab_cols(b, fields, p + 2),
    ensures
        row_state(a, fields, anchors, lead, p + 1 + j) == row_state(b, fields, anchors, lead, p + 2 + j),
        natural_col(a, fields, p + 1 + j) == natural_col(b, fields, p + 2 + j),
        tab_cols(a, fields, p + 1 + j) == tab_cols(b, fields, p + 2 + j),
    decreases j,
{
    if j > 0 {
        lemma_shifted_tail(a, b, fields, anchors, lead, p, j - 1);
        assert(a[p + j] == b[p + j + 1]);
    }
}

/// An arg-less elastic tab followed by `%{X}` renders byte-for-byte as the
/// arg-ful `%{elastic_tab(X)}`: both templates give every row the same tab
/// columns (so collecting anchors over any rows gives the same anchors) and
/// the same output, for rows that hold no field under the empty name.
pub proof fn lemma_argless_tab_equals_argful(
    pre: Seq<NodeView>,
    name: Seq<u8>,
    post: Seq<NodeView>,
    fields: Map<Seq<u8>, Seq<u8>>,
    anchors: Seq<usize>,
    lead: usize,
    left: LeftSide,
    c: crate::config::ConfigView,
)
    requires
        name.len() > 0,
        !fields.contains_key(Seq::<u8>::empty()),
    ensures
        ({
            let a = pre + seq![NodeView::ElasticTab(name)] + post;
            let b = pre + seq![NodeView::ElasticTab(Seq::<u8>::empty()), NodeView::Field(name)] + post;
            &&& tab_cols(a, fields, a.len() as int) == tab_cols(b, fields, b.len() as int)
            &&& natural_col(a, fields, a.len() as int) == natural_col(b, fields, b.len() as int)
            &&& row_bytes(a, fields, anchors, lead, left, c) == row_bytes(b, fields, anchors, lead, left, c)
        }),
{
    let a = pre + seq![NodeView::ElasticTab(name)] + post;
    let b = pre + seq![NodeView::ElasticTab(Seq::<u8>::empty()), NodeView::Field(name)] + post;
    let p = pre.len() as int;
    lemma_same_prefix(a, b, fields, anchors, lead, p);
    assert(a[p] == NodeView::ElasticTab(name));
    assert(b[p] == NodeView::ElasticTab(Seq::<u8>::empty()));
    assert(b[p + 1] == NodeView::Field(name));
    assert(field_value(fields, Seq::<u8>::empty()) == Seq::<u8>::empty());
    assert(width(Seq::<u8>::empty()) == 0);
    let st = row_state(a, fields, anchors, lead, p);
    let sa = row_state(a, fields, anchors, lead, p + 1);
    let sb1 = row_state(b, fields, anchors, lead, p + 1);
    let sb = row_state(b, fields, anchors, lead, p + 2);
    assert(sa.segs =~= sb.segs);
    assert(sa == sb);
    assert(node_width(b[p], fields) == 0);
    assert(natural_col(b, fields, p + 1) == natural_col(b, fields, p) + node_width(b[p], fields));
    assert(natural_col(b, fields, p + 2) == natural_col(b, fields, p + 1) + node_width(b[p + 1], fields));
    assert(natural_col(a, fields, p + 1) == natural_col(a, fields, p) + node_width(a[p], fields));
    assert(natural_col(a, fields, p + 1) == natural_col(b, fields, p + 2));
    assert(tab_cols(b, fields, p + 2) == tab_cols(b, fields, p + 1));
    assert(tab_cols(a, fields, p + 1) == tab_cols(b, fields, p + 2));
    assert forall|i: int| p + 1 <= i < a.len() implies #[trigger] a[i] == b[i + 1] by {
        assert(a[i] == post[i - p - 1]);
        assert(b[i + 1] == post[i - p - 1]);
    }
    lemma_shifted_tail(a, b, fields, anchors, lead, p, post.len() as int);
}


// ---------------------------------------------------------------------------
// Parsing templates

/// Why a template was refused.
#[derive(Debug)]
pub enum TemplateError {
    /// A `%{` with no `}` after it; the byte offset of the `%{`.
    Unterminated(usize),
    /// A function call with no closing `)`; the expression's text.
    MissingParen(Vec<u8>),
    /// A function other than `elastic_tab`; its name.
    UnknownFunction(Vec<u8>),
}

pub enum TemplateErrorView {
    Unterminated(usize),
    MissingParen(Seq<u8>),
    UnknownFunction(Seq<u8>),
}

impl View for TemplateError {
    type V = TemplateErrorView;

    open spec fn view(&self) -> TemplateErrorView {
        match self {
            TemplateError::Unterminated(i) => TemplateErrorView::Unterminated(*i),
            TemplateError::MissingParen(s) => TemplateErrorView::MissingParen(s@),
            TemplateError::UnknownFunction(s) => TemplateErrorView::UnknownFunction(s@),
        }
    }
}

/// The pre-pass over the source from `i`: a real newline becomes a space,
/// the two bytes `\n` become a newline, every other byte is kept.
pub open spec fn prep_from(s: Seq<u8>, i: int) -> Seq<u8>
    decreases s.len() - i,
{
    if i < 0 || i >= s.len() {
        Seq::empty()
    } else if s[i] == 92 && i + 1 < s.len() && s[i + 1] == 110 {
        seq![10u8] + prep_from(s, i + 2)
    } else if s[i] == 10 {
        seq![32u8] + prep_from(s, i + 1)
    } else {
        seq![s[i]] + prep_from(s, i + 1)
    }
}

/// A real newline in a template source reads as a space, and every other
/// byte as itself, wherever the source spells no escape (a backslash then
/// `n`): the text keeps its length and each byte its place.
pub proof fn lemma_prep_newlines(s: Seq<u8>, i: int)
    requires
        0 <= i <= s.len(),
        forall|k: int| i <= k < s.len() - 1 ==> !(s[k] == 92 && #[trigger] s[k + 1] == 110),
    ensures
        prep_from(s, i).len() == s.len() - i,
        forall|k: int| 0 <= k < s.len() - i ==> #[trigger] prep_from(s, i)[k] == (if s[i + k] == 10 {
            32u8
        } else {
            s[i + k]
        }),
    decreases s.len() - i,
{
    if i < s.len() {
        lemma_prep_newlines(s, i + 1);
        let rest = prep_from(s, i + 1);
        let head: Seq<u8> = if s[i] == 10 { seq![32u8] } else { seq![s[i]] };
        assert(!(s[i] == 92 && i + 1 < s.len() && s[i + 1] == 110));
        assert(prep_from(s, i) == head + rest);
        assert forall|k: int| 0 <= k < s.len() - i implies #[trigger] prep_from(s, i)[k] == (if s[i + k] == 10 {
            32u8
        } else {
            s[i + k]
        }) by {
            if k > 0 {
                assert(prep_from(s, i)[k] == rest[k - 1]);
            }
        }
    }
}

/// The escape `\` `n` in a template source reads as one newline, wherever
/// it stands; a backslash before anything else stays a backslash.
pub proof fn lemma_prep_escape(s: Seq<u8>, i: int)
    requires
        0 <= i < s.len(),
        s[i] == 92,
    ensures
        i + 1 < s.len() && s[i + 1] == 110 ==> prep_from(s, i) == seq![10u8] + prep_from(s, i + 2),
        !(i + 1 < s.len() && s[i + 1] == 110) ==> prep_from(s, i) == seq![92u8] + prep_from(s, i + 1),
{
}

/// Index of the first `}` at or after `j`.
pub open spec fn find_close(s: Seq<u8>, j: int) -> Option<int>
    decreases s.len() - j,
{
    if j < 0 || j >= s.len() {
        None
    } else if s[j] == 125 {
        Some(j)
    } else {
        find_close(s, j + 1)
    }
}

/// Index of the first `(` in `s`.
pub open spec fn find_open(s: Seq<u8>, j: int) -> Option<int>
    decreases s.len() - j,
{
    if j < 0 || j >= s.len() {
        None
    } else if s[j] == 40 {
        Some(j)
    } else {
        find_open(s, j + 1)
    }
}

/// The node for the text inside `%{...}` (already trimmed): a field name,
/// or `elastic_tab(arg)` (name and arg trimmed).
pub open spec fn expr_node(s: Seq<u8>) -> Result<NodeView, TemplateErrorView> {
    match find_open(s, 0) {
        Some(o) => {
            if !(s.len() > 0 && s.last() == 41) {
                Err(TemplateErrorView::MissingParen(s))
            } else {
                let name = crate::text::trimmed(s.subrange(0, o));
                let arg = crate::text::trimmed(s.subrange(o + 1, s.len() - 1));
                if name == "elastic_tab".spec_bytes() {
                    Ok(NodeView::ElasticTab(arg))
                } else {
                    Err(TemplateErrorView::UnknownFunction(name))
                }
            }
        },
        None => Ok(NodeView::Field(s)),
    }
}

pub open spec fn lit_node(buf: Seq<u8>) -> Seq<NodeView> {
    if buf.len() > 0 { seq![NodeView::Literal(buf)] } else { Seq::empty() }
}

/// Nodes of the pre-passed source from `i`, `buf` holding literal text not
/// yet closed off: text between tokens becomes a literal, each `%{...}` a
/// node. The first error met stops the scan.
pub open spec fn scan_from(p: Seq<u8>, i: int, buf: Seq<u8>) -> Result<Seq<NodeView>, TemplateErrorView>
    decreases p.len() - i,
{
    if i < 0 || i >= p.len() {
        Ok(lit_node(buf))
    } else if p[i] == 37 && i + 1 < p.len() && p[i + 1] == 123 {
        match find_close(p, i + 2) {
            None => Err(TemplateErrorView::Unterminated(i as usize)),
            Some(e) => {
                if e < i + 2 || e >= p.len() {
                    Ok(lit_node(buf))
                } else {
                    match expr_node(crate::text::trimmed(p.subrange(i + 2, e))) {
                        Err(x) => Err(x),
                        Ok(node) => match scan_from(p, e + 1, Seq::empty()) {
                            Err(x) => Err(x),
                            Ok(rest) => Ok(lit_node(buf) + seq![node] + rest),
                        },
                    }
                }
            },
        }
    } else {
        scan_from(p, i + 1, buf.push(p[i]))
    }
}

/// What `Template::parse` makes of a source.
pub open spec fn parse_template(src: Seq<u8>) -> Result<Seq<NodeView>, TemplateErrorView> {
    scan_from(prep_from(src, 0), 0, Seq::empty())
}

pub open spec fn parse_result_view(r: Result<Template, TemplateError>) -> Result<Seq<NodeView>, TemplateErrorView> {
    match r {
        Ok(t) => Ok(t@),
        Err(e) => Err(e@),
    }
}

proof fn lemma_find_close(s: Seq<u8>, j: int)
    requires
        0 <= j,
    ensures
        match find_close(s, j) {
            Some(e) => j <= e < s.len() && s[e] == 125 && forall|k: int| j <= k < e ==> s[k] != 125,
            None => forall|k: int| j <= k < s.len() ==> s[k] != 125,
        },
    decreases s.len() - j,
{
    if j < s.len() && s[j] != 125 {
        lemma_find_close(s, j + 1);
    }
}

proof fn lemma_find_open(s: Seq<u8>, j: int)
    requires
        0 <= j,
    ensures
        match find_open(s, j) {
            Some(e) => j <= e < s.len() && s[e] == 40 && forall|k: int| j <= k < e ==> s[k] != 40,
            None => forall|k: int| j <= k < s.len() ==> s[k] != 40,
        },
    decreases s.len() - j,
{
    if j < s.len() && s[j] != 40 {
        lemma_find_open(s, j + 1);
    }
}

proof fn lemma_find_close_unique(s: Seq<u8>, j: int, e: int)
    requires
        0 <= j <= e < s.len(),
        s[e] == 125,
        forall|k: int| j <= k < e ==> s[k] != 125,
    ensures
        find_close(s, j) == Some(e),
    decreases e - j,
{
    if j < e {
        lemma_find_close_unique(s, j + 1, e);
    }
}

proof fn lemma_find_close_none(s: Seq<u8>, j: int)
    requires
        0 <= j,
        forall|k: int| j <= k < s.len() ==> s[k] != 125,
    ensures
        find_close(s, j) is None,
    decreases s.len() - j,
{
    if j < s.len() {
        lemma_find_close_none(s, j + 1);
    }
}

proof fn lemma_find_open_unique(s: Seq<u8>, j: int, e: int)
    requires
        0 <= j <= e < s.len(),
        s[e] == 40,
        forall|k: int| j <= k < e ==> s[k] != 40,
    ensures
        find_open(s, j) == Some(e),
    decreases e - j,
{
    if j < e {
        lemma_find_open_unique(s, j + 1, e);
    }
}

proof fn lemma_find_open_none(s: Seq<u8>, j: int)
    requires
        0 <= j,
        forall|k: int| j <= k < s.len() ==> s[k] != 40,
    ensures
        find_open(s, j) is None,
    decreases s.len() - j,
{
    if j < s.len() {
        lemma_find_open_none(s, j + 1);
    }
}

/// The node for the text inside one `%{...}` (see `expr_node`).
fn parse_expr(s: &[u8]) -> (r: Result<Node, TemplateError>)
    ensures
        match r {
            Ok(n) => expr_node(s@) == Ok::<NodeView, TemplateErrorView>(n@),
            Err(e) => expr_node(s@) == Err::<NodeView, TemplateErrorView>(e@),
        },
{
    let mut o: usize = 0;
    while o < s.len() && s[o] != 40
        invariant
            o <= s@.len(),
            forall|k: int| 0 <= k < o ==> s@[k] != 40,
        decreases s@.len() - o,
    {
        o = o + 1;
    }
    if o == s.len() {
        proof { lemma_find_open_none(s@, 0); }
        return Ok(Node::Field(copy_bytes(s)));
    }
    proof { lemma_find_open_unique(s@, 0, o as int); }
    if !(s.len() > 0 && s[s.len() - 1] == 41) {
        return Err(TemplateError::MissingParen(copy_bytes(s)));
    }
    let name = crate::text::trim_bytes(&s[0..o]);
    let arg = crate::text::trim_bytes(&s[o + 1..s.len() - 1]);
    if crate::map::bytes_eq(name, "elastic_tab".as_bytes()) {
        Ok(Node::ElasticTab(copy_bytes(arg)))
    } else {
        Err(TemplateError::UnknownFunction(copy_bytes(name)))
    }
}

/// The pre-pass over the whole source.
fn prep(src: &[u8]) -> (r: Vec<u8>)
    ensures
        r@ == prep_from(src@, 0),
{
    let mut out: Vec<u8> = Vec::new();
    let mut i: usize = 0;
    while i < src.len()
        invariant
            i <= src@.len(),
            out@ + prep_from(src@, i as int) == prep_from(src@, 0),
        decreases src@.len() - i,
    {
        let ghost pre = out@;
        let ghost i0 = i as int;
        let b = src[i];
        if b == 92 && src.len() - i > 1 && src[i + 1] == 110 {
            out.push(10);
            i = i + 2;
        } else if b == 10 {
            out.push(32);
            i = i + 1;
        } else {
            out.push(b);
            i = i + 1;
        }
        assert(out@ + prep_from(src@, i as int) =~= pre + prep_from(src@, i0));
    }
    assert(out@ =~= prep_from(src@, 0));
    out
}

impl Template {
    /// Parse a template source. Real newlines in the source become spaces
    /// and the two characters `\n` a newline; `%{name}` is a field and
    /// `%{elastic_tab(name)}` (or `%{elastic_tab()}`) an elastic tab.
    pub fn parse(src: &str) -> (r: Result<Template, TemplateError>)
        ensures
            parse_result_view(r) == parse_template(src.spec_bytes()),
    {
        let pb = prep(src.as_bytes());
        let ghost p = pb@;
        let mut nodes: Vec<Node> = Vec::new();
        let mut buf: Vec<u8> = Vec::new();
        let mut i: usize = 0;
        while i < pb.len()
            invariant
                i <= pb@.len(),
                p == pb@,
                p == prep_from(src.spec_bytes(), 0),
                (match scan_from(p, i as int, buf@) {
                    Ok(rest) => scan_from(p, 0, Seq::empty()) == Ok::<Seq<NodeView>, TemplateErrorView>(
                        nodes_view(nodes@) + rest,
                    ),
                    Err(x) => scan_from(p, 0, Seq::empty()) == Err::<Seq<NodeView>, TemplateErrorView>(x),
                }),
            decreases pb@.len() - i,
        {
            let ghost i0 = i as int;
            let ghost nodes0 = nodes_view(nodes@);
            let ghost buf0 = buf@;
            if pb[i] == 37 && pb.len() - i > 1 && pb[i + 1] == 123 {
                let mut e: usize = i + 2;
                while e < pb.len() && pb[e] != 125
                    invariant
                        i0 + 2 <= e <= pb@.len(),
                        forall|k: int| i0 + 2 <= k < e ==> pb@[k] != 125,
                    decreases pb@.len() - e,
                {
                    e = e + 1;
                }
                if e == pb.len() {
                    proof { lemma_find_close_none(p, i0 + 2); }
                    return Err(TemplateError::Unterminated(i));
                }
                proof { lemma_find_close_unique(p, i0 + 2, e as int); }
                if buf.len() > 0 {
                    let mut lit: Vec<u8> = Vec::new();
                    std::mem::swap(&mut lit, &mut buf);
                    nodes.push(Node::Literal(lit));
                }
                assert(nodes_view(nodes@) =~= nodes0 + lit_node(buf0));
                let inner = crate::text::trim_bytes(&pb[i + 2..e]);
                match parse_expr(inner) {
                    Ok(node) => {
                        nodes.push(node);
                    },
                    Err(x) => {
                        return Err(x);
                    },
                }
                i = e + 1;
                proof {
                    assert(buf@ =~= Seq::<u8>::empty());
                    match scan_from(p, i as int, buf@) {
                        Ok(rest) => {
                            assert(nodes_view(nodes@) + rest =~= nodes0 + (lit_node(buf0) + seq![nodes@.last()@] + rest));
                        },
                        Err(x) => {},
                    }
                }
            } else {
                buf.push(pb[i]);
                i = i + 1;
            }
        }
        if buf.len() > 0 {
            let ghost nodes0 = nodes_view(nodes@);
            nodes.push(Node::Literal(buf));
            assert(nodes_view(nodes@) =~= nodes0 + lit_node(buf@));
        } else {
            assert(nodes_view(nodes@) =~= nodes_view(nodes@) + lit_node(buf@));
        }
        Ok(Template { nodes })
    }
}


// ---------------------------------------------------------------------------
// NUL/RS records

/// Index of the first byte equal to `b` at or after `j`.
pub open spec fn find_byte(s: Seq<u8>, b: u8, j: int) -> Option<int>
    decreases s.len() - j,
{
    if j < 0 || j >= s.len() {
        None
    } else if s[j] == b {
        Some(j)
    } else {
        find_byte(s, b, j + 1)
    }
}

/// The pieces of `s[i..]` between NUL bytes, as `slice::split` gives them
/// (a trailing NUL leaves an empty last piece).
pub open spec fn split_nul_from(s: Seq<u8>, i: int) -> Seq<Seq<u8>>
    decreases s.len() - i,
{
    if i < 0 || i > s.len() {
        Seq::empty()
    } else {
        match find_byte(s, 0, i) {
            Some(e) => if i <= e < s.len() {
                seq![s.subrange(i, e)] + split_nul_from(s, e + 1)
            } else {
                Seq::empty()
            },
            None => seq![s.subrange(i, s.len() as int)],
        }
    }
}

/// The fields the key/value pairs among the first `2 * k` pieces make, or
/// `None` when a key is empty or not UTF-8. A repeated key keeps its last
/// value.
pub open spec fn pairs_map(parts: Seq<Seq<u8>>, k: int) -> Option<Map<Seq<u8>, Seq<u8>>>
    decreases k,
{
    if k <= 0 {
        Some(Map::empty())
    } else {
        match pairs_map(parts, k - 1) {
            None => None,
            Some(m) => {
                let key = parts[2 * (k - 1)];
                if !vstd::utf8::valid_utf8(key) || key.len() == 0 {
                    None
                } else {
                    Some(m.insert(key, parts[2 * (k - 1) + 1]))
                }
            },
        }
    }
}

/// What `parse_nul_oneline` reads from a line: `key\0value\0...\x1e`, the
/// record ending at the first RS byte, with at least one pair and no odd
/// piece out.
pub open spec fn nul_record(bytes: Seq<u8>) -> Option<Map<Seq<u8>, Seq<u8>>> {
    match find_byte(bytes, 0x1e, 0) {
        None => None,
        Some(rs) => {
            let body = bytes.subrange(0, rs);
            let parts = split_nul_from(body, 0);
            if body.len() == 0 || parts.len() < 2 || parts.len() % 2 != 0 {
                None
            } else {
                pairs_map(parts, (parts.len() / 2) as int)
            }
        },
    }
}

proof fn lemma_pairs_none(parts: Seq<Seq<u8>>, j: int, k: int)
    requires
        0 <= j <= k,
        pairs_map(parts, j) is None,
    ensures
        pairs_map(parts, k) is None,
    decreases k,
{
    if j < k {
        lemma_pairs_none(parts, j, k - 1);
    }
}

/// A key among the first `k` pairs is empty or not UTF-8.
pub open spec fn bad_key(parts: Seq<Seq<u8>>, k: int) -> bool {
    exists|j: int| 0 <= j < k && (!vstd::utf8::valid_utf8(#[trigger] parts[2 * j]) || parts[2 * j].len() == 0)
}

/// The pairs read into fields exactly when no key is empty or not UTF-8;
/// then every key maps to the value after its last occurrence.
pub proof fn lemma_pairs_map(parts: Seq<Seq<u8>>, k: int)
    requires
        0 <= k,
        2 * k <= parts.len(),
    ensures
        pairs_map(parts, k) is None <==> bad_key(parts, k),
        pairs_map(parts, k) matches Some(m) ==> forall|j: int|
            0 <= j < k ==> m.contains_key(#[trigger] parts[2 * j]),
        pairs_map(parts, k) matches Some(m) ==> forall|j: int|
            0 <= j < k && (forall|l: int| j < l < k ==> #[trigger] parts[2 * l] != parts[2 * j]) ==> m[
                #[trigger] parts[2 * j]] == parts[2 * j + 1],
    decreases k,
{
    if k > 0 {
        lemma_pairs_map(parts, k - 1);
        let key = parts[2 * (k - 1)];
        if pairs_map(parts, k - 1) is None {
            let j = choose|j: int| 0 <= j < k - 1 && (!vstd::utf8::valid_utf8(#[trigger] parts[2 * j]) || parts[2 * j].len() == 0);
            assert(0 <= j < k && (!vstd::utf8::valid_utf8(parts[2 * j]) || parts[2 * j].len() == 0));
        } else if !vstd::utf8::valid_utf8(key) || key.len() == 0 {
            assert(0 <= k - 1 < k && (!vstd::utf8::valid_utf8(parts[2 * (k - 1)]) || parts[2 * (k - 1)].len() == 0));
        } else {
            assert forall|j: int| 0 <= j < k implies !(!vstd::utf8::valid_utf8(#[trigger] parts[2 * j]) || parts[2 * j].len() == 0) by {
                if j < k - 1 {
                    assert(!bad_key(parts, k - 1));
                }
            }
        }
    }
}

/// A record ends at its first RS byte: whatever follows it is ignored.
pub proof fn lemma_record_ignores_tail(bytes: Seq<u8>, tail: Seq<u8>)
    requires
        find_byte(bytes, 0x1e, 0) is Some,
    ensures
        nul_record(bytes + tail) == nul_record(bytes),
{
    lemma_find_byte_prefix(bytes, tail, 0x1e, 0);
    let rs = find_byte(bytes, 0x1e, 0)->0;
    lemma_find_byte(bytes, 0x1e, 0);
    assert((bytes + tail).subrange(0, rs) =~= bytes.subrange(0, rs));
}

proof fn lemma_find_byte_prefix(a: Seq<u8>, t: Seq<u8>, b: u8, j: int)
    requires
        0 <= j,
        find_byte(a, b, j) is Some,
    ensures
        find_byte(a + t, b, j) == find_byte(a, b, j),
    decreases a.len() - j,
{
    if j < a.len() {
        assert((a + t)[j] == a[j]);
        if a[j] != b {
            lemma_find_byte_prefix(a, t, b, j + 1);
        }
    }
}

/// The fields of a row as plain byte strings.
pub open spec fn fields_view(m: Map<Seq<u8>, Vec<u8>>) -> Map<Seq<u8>, Seq<u8>> {
    m.map_values(|v: Vec<u8>| v@)
}

/// A copy of `fields` with `key` set to `value`.
pub fn fields_with(fields: &Fields, key: &[u8], value: &[u8]) -> (r: Fields)
    requires
        fields.wf(),
    ensures
        r.wf(),
        fields_view(r@) == fields_view(fields@).insert(key@, value@),
{
    let names = fields.keys();
    let mut out: Fields = ByteMap::new();
    let mut i: usize = 0;
    while i < names.len()
        invariant
            i <= names@.len(),
            out.wf(),
            fields.wf(),
            names@.len() == fields@.dom().len(),
            forall|t: int| 0 <= t < names@.len() ==> fields@.contains_key(#[trigger] names@[t]@),
            forall|k: Seq<u8>| fields@.contains_key(k) ==> exists|t: int| 0 <= t < names@.len() && #[trigger] names@[t]@ == k,
            forall|k: Seq<u8>| #[trigger] out@.contains_key(k) <==> exists|t: int| 0 <= t < i && names@[t]@ == k,
            forall|k: Seq<u8>| #[trigger] out@.contains_key(k) ==> out@[k]@ == fields@[k]@,
        decreases names@.len() - i,
    {
        let name = names[i].as_slice();
        match fields.get(name) {
            Some(v) => {
                let ghost before = out@;
                out.insert(copy_bytes(name), copy_bytes(v.as_slice()));
                proof {
                    assert forall|k: Seq<u8>| #[trigger] out@.contains_key(k) <==> exists|t: int| 0 <= t < i + 1 && names@[t]@ == k by {
                        if out@.contains_key(k) && k != name@ {
                            assert(before.contains_key(k));
                        }
                        if exists|t: int| 0 <= t < i + 1 && names@[t]@ == k {
                            let t = choose|t: int| 0 <= t < i + 1 && names@[t]@ == k;
                            if t < i {
                                assert(before.contains_key(k));
                            }
                        }
                    }
                }
            },
            None => {},
        }
        i = i + 1;
    }
    out.insert(copy_bytes(key), copy_bytes(value));
    proof {
        assert(fields_view(out@) =~= fields_view(fields@).insert(key@, value@)) by {
            assert forall|k: Seq<u8>| #[trigger] fields_view(out@).contains_key(k) <==> fields_view(fields@).insert(key@, value@).contains_key(k) by {
                if fields@.contains_key(k) && k != key@ {
                    let t = choose|t: int| 0 <= t < names@.len() && #[trigger] names@[t]@ == k;
                    assert(out@.contains_key(names@[t]@));
                }
            }
        }
    }
    out
}

pub proof fn lemma_find_byte(s: Seq<u8>, b: u8, j: int)
    requires
        0 <= j,
    ensures
        match find_byte(s, b, j) {
            Some(e) => j <= e < s.len() && s[e] == b && forall|k: int| j <= k < e ==> s[k] != b,
            None => forall|k: int| j <= k < s.len() ==> s[k] != b,
        },
    decreases s.len() - j,
{
    if j < s.len() && s[j] != b {
        lemma_find_byte(s, b, j + 1);
    }
}

/// Index of the first `b` at or after `j` in `s`, or `s.len()`.
pub fn find_byte_exec(s: &[u8], b: u8, j: usize) -> (r: usize)
    requires
        j <= s@.len(),
    ensures
        j <= r <= s@.len(),
        r < s@.len() ==> find_byte(s@, b, j as int) == Some(r as int),
        r == s@.len() ==> find_byte(s@, b, j as int) is None,
{
    proof { lemma_find_byte(s@, b, j as int); }
    let mut k = j;
    while k < s.len() && s[k] != b
        invariant
            j <= k <= s@.len(),
            find_byte(s@, b, k as int) == find_byte(s@, b, j as int),
        decreases s@.len() - k,
    {
        k = k + 1;
    }
    k
}

/// Parse a NUL/RS-framed record `key1\0val1\0...\0keyN\0valN\x1e` into its
/// fields. Values pass through verbatim; keys must be non-empty UTF-8.
pub fn parse_nul_oneline(bytes: &[u8]) -> (r: Option<Fields>)
    ensures
        match r {
            Some(m) => m.wf() && nul_record(bytes@) == Some(fields_view(m@)),
            None => nul_record(bytes@) is None,
        },
{
    let rs = find_byte_exec(bytes, 0x1e, 0);
    if rs == bytes.len() {
        return None;
    }
    let body = &bytes[0..rs];
    if body.len() == 0 {
        return None;
    }
    let ghost bv = body@;
    // Piece boundaries, in order.
    let mut starts: Vec<usize> = Vec::new();
    let mut ends: Vec<usize> = Vec::new();
    let mut i: usize = 0;
    let mut done = false;
    while !done
        invariant
            bv == body@,
            i <= bv.len(),
            starts@.len() == ends@.len(),
            forall|t: int| 0 <= t < starts@.len() ==> #[trigger] starts@[t] <= ends@[t] <= bv.len(),
            !done ==> Seq::new(starts@.len(), |t: int| bv.subrange(starts@[t] as int, ends@[t] as int))
                + split_nul_from(bv, i as int) == split_nul_from(bv, 0),
            done ==> Seq::new(starts@.len(), |t: int| bv.subrange(starts@[t] as int, ends@[t] as int))
                == split_nul_from(bv, 0),
        decreases bv.len() - i, (if done { 0int } else { 1int }),
    {
        let ghost before = Seq::new(starts@.len(), |t: int| bv.subrange(starts@[t] as int, ends@[t] as int));
        let ghost i0 = i as int;
        let e = find_byte_exec(body, 0, i);
        starts.push(i);
        ends.push(e);
        let ghost after = Seq::new(starts@.len(), |t: int| bv.subrange(starts@[t] as int, ends@[t] as int));
        assert(after =~= before.push(bv.subrange(i0, e as int)));
        if e == body.len() {
            done = true;
            assert(split_nul_from(bv, i0) =~= seq![bv.subrange(i0, bv.len() as int)]);
            assert(after =~= before + split_nul_from(bv, i0));
        } else {
            i = e + 1;
            assert(after + split_nul_from(bv, i as int) =~= before + split_nul_from(bv, i0));
        }
    }
    let ghost parts = split_nul_from(bv, 0);
    let n = starts.len();
    if n < 2 || n % 2 != 0 {
        return None;
    }
    let mut fields: Fields = ByteMap::new();
    let mut k: usize = 0;
    while k < n / 2
        invariant
            n == starts@.len(),
            n == parts.len(),
            starts@.len() == ends@.len(),
            forall|t: int| 0 <= t < n ==> #[trigger] starts@[t] <= ends@[t] <= bv.len(),
            forall|t: int| 0 <= t < n ==> #[trigger] parts[t] == bv.subrange(starts@[t] as int, ends@[t] as int),
            bv == body@,
            rs < bytes@.len(),
            bv == bytes@.subrange(0, rs as int),
            find_byte(bytes@, 0x1e, 0) == Some(rs as int),
            parts == split_nul_from(bv, 0),
            bv.len() > 0,
            k <= n / 2,
            fields.wf(),
            pairs_map(parts, k as int) == Some(fields_view(fields@)),
        decreases n / 2 - k,
    {
        let ks = starts[2 * k];
        let ke = ends[2 * k];
        let vs = starts[2 * k + 1];
        let ve = ends[2 * k + 1];
        let key = &body[ks..ke];
        let value = &body[vs..ve];
        assert(parts[2 * k as int] == key@);
        assert(parts[2 * k + 1] == value@);
        if crate::text::utf8_str(key).is_none() || key.len() == 0 {
            proof {
                assert(pairs_map(parts, k + 1) is None);
                lemma_pairs_none(parts, k + 1, (n / 2) as int);
                assert(bytes@.subrange(0, rs as int) == bv);
            }
            return None;
        }
        let ghost m0 = fields@;
        fields.insert(copy_bytes(key), copy_bytes(value));
        assert(fields_view(fields@) =~= fields_view(m0).insert(key@, value@));
        k = k + 1;
    }
    assert(n / 2 * 2 == n);
    assert(bytes@.subrange(0, rs as int) == bv);
    Some(fields)
}


// ---------------------------------------------------------------------------
// Machine limits

/// The row's natural width, when it fits in `usize`.
pub fn natural_width(template: &Template, fields: &Fields) -> (r: Option<usize>)
    ensures
        match r {
            Some(w) => w as int == natural_col(template@, fields_view(fields@), template@.len() as int),
            None => natural_col(template@, fields_view(fields@), template@.len() as int) > usize::MAX,
        },
{
    let ghost nodes = template@;
    let ghost f = fields_view(fields@);
    let mut acc: usize = 0;
    let mut k: usize = 0;
    while k < template.nodes.len()
        invariant
            k <= template.nodes@.len(),
            nodes == template@,
            f == fields_view(fields@),
            acc as int == natural_col(nodes, f, k as int),
        decreases template.nodes@.len() - k,
    {
        assert(nodes[k as int] == template.nodes@[k as int]@);
        let w = match &template.nodes[k] {
            Node::Literal(b) => visible_width(b.as_slice()),
            Node::Field(name) => visible_width(value_of(fields, name.as_slice())),
            Node::ElasticTab(name) => visible_width(value_of(fields, name.as_slice())),
        };
        match acc.checked_add(w) {
            Some(v) => {
                acc = v;
            },
            None => {
                proof { lemma_natural_col_mono(nodes, f, k + 1, nodes.len() as int); }
                return None;
            },
        }
        k = k + 1;
    }
    Some(acc)
}

/// Bytes of literal text in the template, when they fit in `usize`.
pub fn literal_len(template: &Template) -> (r: Option<usize>)
    ensures
        match r {
            Some(w) => w as int == literal_bytes(template@, template@.len() as int),
            None => literal_bytes(template@, template@.len() as int) > usize::MAX,
        },
{
    let ghost nodes = template@;
    let mut acc: usize = 0;
    let mut k: usize = 0;
    while k < template.nodes.len()
        invariant
            k <= template.nodes@.len(),
            nodes == template@,
            acc as int == literal_bytes(nodes, k as int),
        decreases template.nodes@.len() - k,
    {
        assert(nodes[k as int] == template.nodes@[k as int]@);
        let w = match &template.nodes[k] {
            Node::Literal(b) => b.len(),
            _ => 0,
        };
        match acc.checked_add(w) {
            Some(v) => {
                acc = v;
            },
            None => {
                proof { lemma_literal_bytes_mono(nodes, k + 1, nodes.len() as int); }
                return None;
            },
        }
        k = k + 1;
    }
    Some(acc)
}

/// Whether `render_row` can render this row within `usize` (see
/// `row_fits`).
pub fn row_fits_check(template: &Template, fields: &Fields, anchors: &[usize], lead: usize) -> (r: bool)
    ensures
        r == row_fits(template@, fields_view(fields@), anchors@, lead),
{
    let ghost nodes = template@;
    let ghost f = fields_view(fields@);
    let ghost n = nodes.len() as int;
    proof {
        lemma_natural_col_mono(nodes, f, 0, n);
        lemma_literal_bytes_mono(nodes, 0, n);
    }
    let lit = match literal_len(template) {
        Some(v) => v,
        None => {
            return false;
        },
    };
    let natw = match natural_width(template, fields) {
        Some(v) => v,
        None => {
            return false;
        },
    };
    let base = match lead.checked_add(lit) {
        Some(v) => match v.checked_add(natw) {
            Some(w) => w,
            None => {
                return false;
            },
        },
        None => {
            return false;
        },
    };
    let mut t: usize = 0;
    while t < anchors.len()
        invariant
            t <= anchors@.len(),
            nodes == template@,
            f == fields_view(fields@),
            n == nodes.len(),
            base as int == lead + literal_bytes(nodes, n) + natural_col(nodes, f, n),
            forall|u: int| 0 <= u < t ==> lead + literal_bytes(nodes, n) + anchors@[u] + natural_col(nodes, f, n)
                <= usize::MAX,
        decreases anchors@.len() - t,
    {
        if base.checked_add(anchors[t]).is_none() {
            assert(!(lead + literal_bytes(nodes, n) + anchors@[t as int] + natural_col(nodes, f, n) <= usize::MAX));
            return false;
        }
        t = t + 1;
    }
    true
}

/// Whether `collect_anchors` can measure this row within `usize`.
pub fn anchors_fit(template: &Template, fields: &Fields) -> (r: bool)
    ensures
        r == (natural_col(template@, fields_view(fields@), template@.len() as int) <= usize::MAX),
{
    natural_width(template, fields).is_some()
}

} // verus!

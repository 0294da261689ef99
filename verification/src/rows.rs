use vstd::prelude::*;
use vstd::string::StringSliceAdditionalSpecFns;
use crate::ansi::{csi_end, skip_csi, fg_reset, FG_RESET};
use crate::bytes::{copy_bytes, push_all};
use crate::config::{Config, ConfigView, BIJJOU_TEMPLATE_NAME_FIELD};
use crate::dsl::{
    anchors_fit, collect_anchors, emit_node_pad, fields_with, fields_view, natural_col, nul_record,
    pad_bytes, parse_nul_oneline, parse_template, render_row, row_bytes, row_fits, row_fits_check,
    tab_cols, widen, Fields, LeftSide, Node, NodeView, Template, TemplateError, TemplateErrorView,
};
use crate::config::HydraColorsView;
use crate::hydra::{
    bookmarks_of, markup_step, names_replaced, plain_row, replace_names, topo_view, Topology, TopoView, Walk,
    WalkView, BOOKMARKS_FIELD,
};
use crate::map::ByteMap;
use crate::render::{
    body_of, boundary, dim_graph, emit_dim_graph, emit_line, find_boundary, lemma_boundary_bounds,
    line_bytes, nl_of, opt_bytes, strip_trailing_nl, BState, Parsed,
};

verus! {

/// What one input line is.
#[derive(Debug)]
pub enum RowKind {
    /// A commit record: its graph prefix and the fields to render.
    Commit {
        graph_end: usize,
        graph_col: usize,
        last_is_edge: bool,
        template_name: Option<Vec<u8>>,
        fields: Fields,
    },
    /// The root commit's record (a single `root` field).
    Root { graph_end: usize, value: Vec<u8> },
    /// Anything else, with the graph boundary found (if any).
    Passthrough { parsed: Option<Parsed> },
}

/// A `templates.<name>` entry, compiled. An empty body renders the graph
/// only.
#[derive(Debug)]
pub enum CompiledTemplate {
    Empty,
    Parsed(Template),
}

/// Per-template alignment state: `anchors[i]` is the widest natural column
/// seen before the template's `i`-th elastic tab.
pub struct TemplateMetrics {
    pub anchors: Vec<usize>,
}

/// The field naming which template renders a row.
pub open spec fn name_field() -> Seq<u8> {
    BIJJOU_TEMPLATE_NAME_FIELD.spec_bytes()
}

/// The field of a root record.
pub open spec fn root_field() -> Seq<u8> {
    "root".spec_bytes()
}

/// Index past the escapes, spaces and tabs that lead a row's payload.
pub open spec fn lead_skip(p: Seq<u8>, i: int) -> int
    decreases p.len() - i,
{
    if i < 0 || i >= p.len() {
        i
    } else {
        match csi_end(p, i) {
            Some(e) => if i < e <= p.len() { lead_skip(p, e) } else { i },
            None => if p[i] == 32 || p[i] == 9 { lead_skip(p, i + 1) } else { i },
        }
    }
}

/// The record text of a row: its content with leading blanks and escapes
/// skipped.
pub open spec fn record_text(body: Seq<u8>, p: Parsed) -> Seq<u8> {
    let payload = body.subrange(p.content_start as int, body.len() as int);
    payload.subrange(lead_skip(payload, 0), payload.len() as int)
}

/// A record holding nothing but a `root` field.
pub open spec fn is_root_record(m: Map<Seq<u8>, Seq<u8>>) -> bool {
    m.dom().len() == 1 && m.contains_key(root_field())
}

/// The template a record names, when its name is UTF-8.
pub open spec fn record_template_name(m: Map<Seq<u8>, Seq<u8>>) -> Option<Seq<u8>> {
    if m.contains_key(name_field()) && vstd::utf8::valid_utf8(m[name_field()]) {
        Some(m[name_field()])
    } else {
        None
    }
}

pub open spec fn opt_seq(o: Option<Vec<u8>>) -> Option<Seq<u8>> {
    match o {
        Some(v) => Some(v@),
        None => None,
    }
}

/// `r` is how `body` classifies: no boundary or no record makes a
/// passthrough row; a record with only `root` is the root row; any other
/// record is a commit row, its gap measured on the graph as drawn (collapsed
/// or not) and its template-name field taken out of the fields.
pub open spec fn classified(r: RowKind, body: Seq<u8>, collapse: bool) -> bool {
    match boundary(body) {
        None => r == RowKind::Passthrough { parsed: None },
        Some(p) => match nul_record(record_text(body, p)) {
            None => r == RowKind::Passthrough { parsed: Some(p) },
            Some(m) => if is_root_record(m) {
                r matches RowKind::Root { graph_end, value } && graph_end == p.graph_end && value@
                    == m[root_field()]
            } else {
                r matches RowKind::Commit { graph_end, graph_col, last_is_edge, template_name, fields }
                    && graph_end == p.graph_end && graph_col == (if collapse {
                    p.graph_col_collapsed
                } else {
                    p.graph_col
                }) && last_is_edge == (if collapse {
                    p.last_is_edge_collapsed
                } else {
                    p.last_is_edge
                }) && opt_seq(template_name) == record_template_name(m) && fields.wf() && fields_view(
                    fields@,
                ) == m.remove(name_field())
            },
        },
    }
}

fn skip_lead(p: &[u8]) -> (r: usize)
    ensures
        r as int == lead_skip(p@, 0),
        r <= p@.len(),
{
    let n = p.len();
    let mut i: usize = 0;
    while i < n && (skip_csi(p, i).is_some() || p[i] == 32 || p[i] == 9)
        invariant
            n == p@.len(),
            i <= n,
            lead_skip(p@, i as int) == lead_skip(p@, 0),
        decreases n - i,
    {
        if let Some(after) = skip_csi(p, i) {
            i = after;
        } else {
            i = i + 1;
        }
    }
    i
}

/// Classify one line (without its newline); see `classified`. `collapse`
/// is `graph.collapse`, which decides how wide the graph prefix is drawn.
pub fn classify_row(body: &[u8], collapse: bool) -> (r: RowKind)
    ensures
        classified(r, body@, collapse),
{
    let _n = body.len();
    let p = match find_boundary(body) {
        Some(p) => p,
        None => {
            return RowKind::Passthrough { parsed: None };
        },
    };
    proof {
        lemma_boundary_bounds(body@, 0, BState { vis: 0, kept: 0, had: false, lie: false, liec: false });
    }
    let payload = &body[p.content_start..body.len()];
    let i = skip_lead(payload);
    let rest = &payload[i..payload.len()];
    assert(rest@ == record_text(body@, p));
    let mut fields = match parse_nul_oneline(rest) {
        Some(m) => m,
        None => {
            return RowKind::Passthrough { parsed: Some(p) };
        },
    };
    let root = "root".as_bytes();
    assert(fields_view(fields@).dom() =~= fields@.dom());
    if fields.len() == 1 && fields.contains_key(root) {
        let value = match fields.get(root) {
            Some(v) => copy_bytes(v.as_slice()),
            None => Vec::new(),
        };
        assert(value@ == fields_view(fields@)[root_field()]);
        return RowKind::Root { graph_end: p.graph_end, value };
    }
    let ghost m0 = fields@;
    let template_name = match fields.remove(BIJJOU_TEMPLATE_NAME_FIELD.as_bytes()) {
        Some(v) => if crate::text::utf8_str(v.as_slice()).is_some() {
            Some(v)
        } else {
            None
        },
        None => None,
    };
    assert(fields_view(fields@) =~= fields_view(m0).remove(name_field()));
    RowKind::Commit {
        graph_end: p.graph_end,
        graph_col: if collapse { p.graph_col_collapsed } else { p.graph_col },
        last_is_edge: if collapse { p.last_is_edge_collapsed } else { p.last_is_edge },
        template_name,
        fields,
    }
}


// ---------------------------------------------------------------------------
// Compiling templates

/// What a template body compiles to: `None` for an empty body (graph only),
/// else its parsed nodes.
pub open spec fn compile_view(body: Seq<u8>) -> Result<Option<Seq<NodeView>>, TemplateErrorView> {
    if body.len() == 0 {
        Ok(None)
    } else {
        match parse_template(body) {
            Ok(n) => Ok(Some(n)),
            Err(e) => Err(e),
        }
    }
}

pub open spec fn compiled_view(t: CompiledTemplate) -> Option<Seq<NodeView>> {
    match t {
        CompiledTemplate::Empty => None,
        CompiledTemplate::Parsed(t) => Some(t@),
    }
}

/// A template that failed to compile, and why.
#[derive(Debug)]
pub struct CompileError {
    pub name: Vec<u8>,
    pub error: TemplateError,
}

/// Compile every configured template. Fails naming a template that does not
/// parse; succeeds when all do.
pub fn compile_templates(map: &ByteMap<String>) -> (r: Result<ByteMap<CompiledTemplate>, CompileError>)
    requires
        map.wf(),
    ensures
        match r {
            Ok(m) => m.wf() && m@.dom() == map@.dom() && forall|k: Seq<u8>| #[trigger] map@.contains_key(k)
                ==> compile_view(vstd::utf8::encode_utf8(map@[k]@)) == Ok::<
                Option<Seq<NodeView>>,
                TemplateErrorView,
            >(compiled_view(m@[k])),
            Err(e) => map@.contains_key(e.name@) && compile_view(vstd::utf8::encode_utf8(map@[e.name@]@)) == Err::<
                Option<Seq<NodeView>>,
                TemplateErrorView,
            >(e.error@),
        },
{
    let names = map.keys();
    let mut out: ByteMap<CompiledTemplate> = ByteMap::new();
    let mut i: usize = 0;
    while i < names.len()
        invariant
            i <= names@.len(),
            out.wf(),
            map.wf(),
            names@.len() == map@.dom().len(),
            forall|t: int| 0 <= t < names@.len() ==> map@.contains_key(#[trigger] names@[t]@),
            forall|k: Seq<u8>| map@.contains_key(k) ==> exists|t: int| 0 <= t < names@.len() && #[trigger] names@[t]@ == k,
            forall|a: int, b: int| 0 <= a < b < names@.len() ==> names@[a]@ != names@[b]@,
            forall|k: Seq<u8>| #[trigger] out@.contains_key(k) <==> exists|t: int| 0 <= t < i && names@[t]@ == k,
            forall|k: Seq<u8>| #[trigger] out@.contains_key(k) ==> compile_view(vstd::utf8::encode_utf8(map@[k]@))
                == Ok::<Option<Seq<NodeView>>, TemplateErrorView>(compiled_view(out@[k])),
        decreases names@.len() - i,
    {
        let name = names[i].as_slice();
        let body = match map.get(name) {
            Some(b) => b,
            None => {
                assert(false);
                return Err(CompileError { name: copy_bytes(name), error: TemplateError::Unterminated(0) });
            },
        };
        let entry = if body.as_str().as_bytes().len() == 0 {
            CompiledTemplate::Empty
        } else {
            match Template::parse(body.as_str()) {
                Ok(t) => CompiledTemplate::Parsed(t),
                Err(e) => {
                    return Err(CompileError { name: copy_bytes(name), error: e });
                },
            }
        };
        let ghost before = out@;
        out.insert(copy_bytes(name), entry);
        i = i + 1;
        proof {
            assert forall|k: Seq<u8>| #[trigger] out@.contains_key(k) <==> exists|t: int| 0 <= t < i && names@[t]@ == k by {
                if out@.contains_key(k) && k != name@ {
                    assert(before.contains_key(k));
                }
                if exists|t: int| 0 <= t < i && names@[t]@ == k {
                    let t = choose|t: int| 0 <= t < i && names@[t]@ == k;
                    if t < i - 1 {
                        assert(before.contains_key(k));
                    }
                }
            }
        }
    }
    proof {
        assert(out@.dom() =~= map@.dom()) by {
            assert forall|k: Seq<u8>| out@.dom().contains(k) <==> map@.dom().contains(k) by {
                if map@.contains_key(k) {
                    let t = choose|t: int| 0 <= t < names@.len() && #[trigger] names@[t]@ == k;
                    assert(out@.contains_key(names@[t]@));
                }
            }
        }
    }
    Ok(out)
}

// ---------------------------------------------------------------------------
// Pass 1

/// Anchors recorded per template name.
pub open spec fn anchors_of(m: Map<Seq<u8>, TemplateMetrics>) -> Map<Seq<u8>, Seq<usize>> {
    m.map_values(|t: TemplateMetrics| t.anchors@)
}

/// `widen` as the machine stores it.
pub open spec fn widen_usize(a: Seq<usize>, cols: Seq<int>) -> Seq<usize> {
    Seq::new(widen(a, cols).len(), |i: int| widen(a, cols)[i] as usize)
}

/// The parsed template a row names, if it names one that parsed.
pub open spec fn parsed_template(templates: Map<Seq<u8>, CompiledTemplate>, name: Option<Vec<u8>>) -> Option<Seq<NodeView>> {
    match name {
        Some(n) => if templates.contains_key(n@) { compiled_view(templates[n@]) } else { None },
        None => None,
    }
}

/// The field map with its `bookmarks` set to `b`, when there is one.
pub open spec fn with_bookmarks(f: Map<Seq<u8>, Seq<u8>>, b: Option<Seq<u8>>) -> Map<Seq<u8>, Seq<u8>> {
    match b {
        Some(v) => f.insert(BOOKMARKS_FIELD.spec_bytes(), v),
        None => f,
    }
}

/// A row's fields as pass 1 measures them: with the hydra stand-ins in
/// place, so a renamed bookmark is measured at its rendered width.
pub open spec fn measured(topo: Option<TopoView>, f: Map<Seq<u8>, Seq<u8>>) -> Map<Seq<u8>, Seq<u8>> {
    with_bookmarks(f, names_replaced(topo, f))
}

/// Anchors after folding the first `k` rows into `m`: every commit row
/// whose template parsed widens that template's anchors by its tab columns.
pub open spec fn metrics_after(
    rows: Seq<RowKind>,
    k: int,
    templates: Map<Seq<u8>, CompiledTemplate>,
    topo: Option<TopoView>,
    m: Map<Seq<u8>, Seq<usize>>,
) -> Map<Seq<u8>, Seq<usize>>
    decreases k,
{
    if k <= 0 {
        m
    } else {
        let prev = metrics_after(rows, k - 1, templates, topo, m);
        match rows[k - 1] {
            RowKind::Commit { template_name, fields, .. } => match parsed_template(templates, template_name) {
                Some(nodes) => {
                    let n = template_name->0@;
                    let old_a = if prev.contains_key(n) { prev[n] } else { Seq::empty() };
                    let f = measured(topo, fields_view(fields@));
                    prev.insert(n, widen_usize(old_a, tab_cols(nodes, f, nodes.len() as int)))
                },
                None => prev,
            },
            _ => prev,
        }
    }
}

/// The widest graph column among the first `k` rows' commits, at least `g`.
pub open spec fn max_col_after(rows: Seq<RowKind>, k: int, g: int) -> int
    decreases k,
{
    if k <= 0 {
        g
    } else {
        let prev = max_col_after(rows, k - 1, g);
        match rows[k - 1] {
            RowKind::Commit { graph_col, .. } => if graph_col > prev { graph_col as int } else { prev },
            _ => prev,
        }
    }
}

/// Every commit row can be measured within `usize`.
pub open spec fn rows_measurable(
    rows: Seq<RowKind>,
    templates: Map<Seq<u8>, CompiledTemplate>,
    topo: Option<TopoView>,
) -> bool {
    forall|k: int|
        0 <= k < rows.len() ==> match #[trigger] rows[k] {
            RowKind::Commit { template_name, fields, .. } => match parsed_template(templates, template_name) {
                Some(nodes) => natural_col(nodes, measured(topo, fields_view(fields@)), nodes.len() as int) <= usize::MAX,
                None => true,
            },
            _ => true,
        }
}

/// Every commit row's fields are a well-formed map.
pub open spec fn rows_wf(rows: Seq<RowKind>) -> bool {
    forall|k: int| 0 <= k < rows.len() ==> (#[trigger] rows[k] matches RowKind::Commit { fields, .. } ==> fields.wf())
}

/// Pass 1: fold every commit row's tab columns into its template's anchors
/// and widen the maximum graph column. Anchors only grow, so folding
/// successive batches widens monotonically.
pub fn accumulate_metrics(
    rows: &Vec<RowKind>,
    templates: &ByteMap<CompiledTemplate>,
    topo: &Option<Topology>,
    metrics: &mut ByteMap<TemplateMetrics>,
    max_graph_col: &mut usize,
)
    requires
        old(metrics).wf(),
        topo matches Some(t) ==> t.wf(),
        rows_wf(rows@),
        rows_measurable(rows@, templates@, topo_view(*topo)),
    ensures
        final(metrics).wf(),
        anchors_of(final(metrics)@) == metrics_after(
            rows@,
            rows@.len() as int,
            templates@,
            topo_view(*topo),
            anchors_of(old(metrics)@),
        ),
        *final(max_graph_col) as int == max_col_after(rows@, rows@.len() as int, *old(max_graph_col) as int),
{
    let ghost m0 = anchors_of(metrics@);
    let ghost g0 = *max_graph_col as int;
    let ghost tv = topo_view(*topo);
    let mut k: usize = 0;
    while k < rows.len()
        invariant
            k <= rows@.len(),
            metrics.wf(),
            topo matches Some(t) ==> t.wf(),
            tv == topo_view(*topo),
            rows_wf(rows@),
            rows_measurable(rows@, templates@, tv),
            anchors_of(metrics@) == metrics_after(rows@, k as int, templates@, tv, m0),
            *max_graph_col as int == max_col_after(rows@, k as int, g0),
        decreases rows@.len() - k,
    {
        assert(rows_measurable(rows@, templates@, tv));
        assert(rows_wf(rows@));
        let ghost rk = rows@[k as int];
        match &rows[k] {
            RowKind::Commit { graph_col, template_name, fields, .. } => {
                if let Some(name) = template_name {
                    if let Some(CompiledTemplate::Parsed(template)) = templates.get(name.as_slice()) {
                        let ghost prev = anchors_of(metrics@);
                        let ghost f = measured(tv, fields_view(fields@));
                        let mut entry = match metrics.remove(name.as_slice()) {
                            Some(e) => e,
                            None => TemplateMetrics { anchors: Vec::new() },
                        };
                        assert(entry.anchors@ == (if prev.contains_key(name@) { prev[name@] } else { Seq::<usize>::empty() }));
                        let mut shown: Vec<u8> = Vec::new();
                        if replace_names(topo, fields, &mut shown) {
                            let f2 = fields_with(fields, BOOKMARKS_FIELD.as_bytes(), shown.as_slice());
                            assert(fields_view(f2@) == f);
                            collect_anchors(template, &f2, &mut entry.anchors);
                        } else {
                            assert(fields_view(fields@) == f);
                            collect_anchors(template, fields, &mut entry.anchors);
                        }
                        let ghost na = entry.anchors@;
                        metrics.insert(copy_bytes(name.as_slice()), entry);
                        proof {
                            let cols = tab_cols(template@, f, template@.len() as int);
                            let old_a = if prev.contains_key(name@) { prev[name@] } else { Seq::<usize>::empty() };
                            assert(na =~= widen_usize(old_a, cols));
                            assert(anchors_of(metrics@) =~= prev.insert(name@, widen_usize(old_a, cols)));
                        }
                    } else {
                        assert(parsed_template(templates@, *template_name) is None);
                    }
                }
                if *graph_col > *max_graph_col {
                    *max_graph_col = *graph_col;
                }
            },
            _ => {},
        }
        k = k + 1;
    }
}

/// Anchors only grow: widening keeps every anchor at least where it was
/// and never drops one.
pub proof fn lemma_widen_grows(a: Seq<usize>, cols: Seq<int>)
    ensures
        widen_usize(a, cols).len() >= a.len(),
        forall|i: int| 0 <= i < a.len() ==> a[i] <= #[trigger] widen(a, cols)[i],
{
}

/// Columns that fit in `usize` and are not negative.
pub open spec fn cols_fit(cols: Seq<int>) -> bool {
    forall|i: int| 0 <= i < cols.len() ==> 0 <= #[trigger] cols[i] <= usize::MAX
}

/// Folding rows into anchors does not depend on their order, and folding a
/// row a second time changes nothing.
pub proof fn lemma_widen_order_free(a: Seq<usize>, c1: Seq<int>, c2: Seq<int>)
    requires
        cols_fit(c1),
        cols_fit(c2),
    ensures
        widen_usize(widen_usize(a, c1), c2) == widen_usize(widen_usize(a, c2), c1),
        widen_usize(widen_usize(a, c1), c1) == widen_usize(a, c1),
{
    let a1 = widen_usize(a, c1);
    let a2 = widen_usize(a, c2);
    assert forall|i: int| 0 <= i < a1.len() implies a1[i] as int == #[trigger] widen(a, c1)[i] by {}
    assert forall|i: int| 0 <= i < a2.len() implies a2[i] as int == #[trigger] widen(a, c2)[i] by {}
    assert(widen_usize(a1, c2) =~= widen_usize(a2, c1));
    assert(widen_usize(a1, c1) =~= a1);
}

/// Folding rows into the metrics touches only the templates that commit
/// rows name and that parsed: any other template keeps its anchors, or
/// stays without any.
pub proof fn lemma_metrics_touch_named_only(
    rows: Seq<RowKind>,
    k: int,
    templates: Map<Seq<u8>, CompiledTemplate>,
    topo: Option<TopoView>,
    m: Map<Seq<u8>, Seq<usize>>,
    name: Seq<u8>,
)
    requires
        0 <= k <= rows.len(),
        forall|j: int|
            0 <= j < k ==> !(#[trigger] rows[j] matches RowKind::Commit { template_name, .. } && template_name
                matches Some(n) && n@ == name && parsed_template(templates, template_name) is Some),
    ensures
        metrics_after(rows, k, templates, topo, m).contains_key(name) == m.contains_key(name),
        m.contains_key(name) ==> metrics_after(rows, k, templates, topo, m)[name] == m[name],
    decreases k,
{
    if k > 0 {
        lemma_metrics_touch_named_only(rows, k - 1, templates, topo, m, name);
        assert(!(rows[k - 1] matches RowKind::Commit { template_name, .. } && template_name matches Some(n)
            && n@ == name && parsed_template(templates, template_name) is Some));
    }
}

/// `m2` keeps every template of `m1`, each anchor at least where it was.
pub open spec fn anchors_grow(m1: Map<Seq<u8>, Seq<usize>>, m2: Map<Seq<u8>, Seq<usize>>) -> bool {
    forall|n: Seq<u8>| #[trigger] m1.contains_key(n) ==> {
        &&& m2.contains_key(n)
        &&& m2[n].len() >= m1[n].len()
        &&& forall|i: int| 0 <= i < m1[n].len() ==> m1[n][i] <= #[trigger] m2[n][i]
    }
}

/// Alignment never shifts backwards: folding measurable rows into the
/// metrics keeps every template's anchors, each at least where it was, and
/// the widest graph column at least where it was. Batch after batch, rows
/// already written stay aligned.
pub proof fn lemma_metrics_only_grow(
    rows: Seq<RowKind>,
    k: int,
    templates: Map<Seq<u8>, CompiledTemplate>,
    topo: Option<TopoView>,
    m: Map<Seq<u8>, Seq<usize>>,
    g: int,
)
    requires
        0 <= k <= rows.len(),
        rows_measurable(rows, templates, topo),
    ensures
        anchors_grow(m, metrics_after(rows, k, templates, topo, m)),
        max_col_after(rows, k, g) >= g,
    decreases k,
{
    if k > 0 {
        lemma_metrics_only_grow(rows, k - 1, templates, topo, m, g);
        let prev = metrics_after(rows, k - 1, templates, topo, m);
        let cur = metrics_after(rows, k, templates, topo, m);
        match rows[k - 1] {
            RowKind::Commit { template_name, fields, .. } => match parsed_template(templates, template_name) {
                Some(nodes) => {
                    let name = template_name->0@;
                    let old_a = if prev.contains_key(name) { prev[name] } else { Seq::empty() };
                    let f = measured(topo, fields_view(fields@));
                    let cols = tab_cols(nodes, f, nodes.len() as int);
                    assert(natural_col(nodes, f, nodes.len() as int) <= usize::MAX);
                    crate::dsl::lemma_tab_cols_len(nodes, f, nodes.len() as int);
                    assert(cur == prev.insert(name, widen_usize(old_a, cols)));
                    assert forall|n: Seq<u8>| #[trigger] m.contains_key(n) implies {
                        &&& cur.contains_key(n)
                        &&& cur[n].len() >= m[n].len()
                        &&& forall|i: int| 0 <= i < m[n].len() ==> m[n][i] <= #[trigger] cur[n][i]
                    } by {
                        if n == name {
                            assert forall|i: int| 0 <= i < m[n].len() implies m[n][i] <= #[trigger] cur[n][i] by {
                                assert(m[n][i] <= prev[n][i]);
                                assert(widen(old_a, cols)[i] <= usize::MAX);
                                assert(old_a[i] <= widen(old_a, cols)[i]);
                            }
                        }
                    }
                },
                None => {},
            },
            _ => {},
        }
    }
}


// ---------------------------------------------------------------------------
// Pass 2

/// The field the missing-template notice is carried in.
pub open spec fn msg_field() -> Seq<u8> {
    "__bijjou_msg".spec_bytes()
}

/// The notice for a row naming an unknown template, in the dim colour.
pub open spec fn missing_msg(name: Seq<u8>, c: ConfigView) -> Seq<u8> {
    c.dim_on + "no bijjou template for ".spec_bytes() + name + fg_reset()
}

/// The one-row template the notice renders through: a space, then the
/// notice.
pub open spec fn missing_nodes() -> Seq<NodeView> {
    seq![NodeView::Literal(seq![32u8]), NodeView::Field(msg_field())]
}

pub open spec fn missing_fields(name: Seq<u8>, c: ConfigView) -> Map<Seq<u8>, Seq<u8>> {
    Map::empty().insert(msg_field(), missing_msg(name, c))
}

/// The template and fields that render the missing-template notice.
fn missing_template_row(name: &[u8], c: &Config) -> (r: (Template, Fields))
    ensures
        r.0@ == missing_nodes(),
        fields_view(r.1@) == missing_fields(name@, c@),
{
    let mut msg: Vec<u8> = Vec::new();
    push_all(&mut msg, c.dim_on.as_slice());
    push_all(&mut msg, "no bijjou template for ".as_bytes());
    push_all(&mut msg, name);
    push_all(&mut msg, &FG_RESET);
    assert(FG_RESET@ =~= fg_reset());
    assert(msg@ =~= missing_msg(name@, c@));
    let mut space: Vec<u8> = Vec::new();
    space.push(32u8);
    let mut nodes: Vec<Node> = Vec::new();
    nodes.push(Node::Literal(space));
    nodes.push(Node::Field(copy_bytes("__bijjou_msg".as_bytes())));
    let synth = Template { nodes };
    assert(synth@[0] == NodeView::Literal(seq![32u8]));
    assert(synth@ =~= missing_nodes());
    let mut fields: Fields = ByteMap::new();
    fields.insert(copy_bytes("__bijjou_msg".as_bytes()), msg);
    assert(fields_view(fields@) =~= missing_fields(name@, c@));
    (synth, fields)
}

/// The notice for a row whose template name matches no configured
/// template, rendered like a row so the gap before it dash-fills.
fn emit_missing_template(name: &[u8], leading_pad: usize, leading_left: LeftSide, c: &Config, out: &mut Vec<u8>)
    requires
        row_fits(missing_nodes(), missing_fields(name@, c@), Seq::empty(), leading_pad),
    ensures
        final(out)@ == old(out)@ + row_bytes(
            missing_nodes(),
            missing_fields(name@, c@),
            Seq::empty(),
            leading_pad,
            leading_left,
            c@,
        ),
{
    let (synth, fields) = missing_template_row(name, c);
    let none: &[usize] = &[];
    assert(none@ =~= Seq::<usize>::empty());
    render_row(&synth, &fields, leading_pad, leading_left, none, c, out);
}

/// Anchors recorded for a template (none yet: empty).
pub open spec fn anchors_for(metrics: Map<Seq<u8>, TemplateMetrics>, name: Seq<u8>) -> Seq<usize> {
    if metrics.contains_key(name) { metrics[name].anchors@ } else { Seq::empty() }
}

/// The gap between a commit's graph and its content: up to the widest
/// graph column.
pub open spec fn gap(max_graph_col: usize, graph_col: usize) -> usize {
    if max_graph_col > graph_col { (max_graph_col - graph_col) as usize } else { 0 }
}

pub open spec fn left_of(last_is_edge: bool) -> LeftSide {
    if last_is_edge { LeftSide::GraphEdge } else { LeftSide::GraphNode }
}

/// A commit row fits the machine through the template it names, with
/// fields `f` and gap `lead` (a row naming no template, or the empty one,
/// always does).
pub open spec fn commit_fits(
    template_name: Option<Vec<u8>>,
    f: Map<Seq<u8>, Seq<u8>>,
    templates: Map<Seq<u8>, CompiledTemplate>,
    metrics: Map<Seq<u8>, TemplateMetrics>,
    lead: usize,
    c: ConfigView,
) -> bool {
    match template_name {
        Some(n) => if templates.contains_key(n@) {
            match compiled_view(templates[n@]) {
                Some(nodes) => row_fits(nodes, f, anchors_for(metrics, n@), lead),
                None => true,
            }
        } else {
            row_fits(missing_nodes(), missing_fields(n@, c), Seq::empty(), lead)
        },
        None => true,
    }
}

/// What a commit row renders to after its graph: through the template it
/// names, with fields `f`, the gap to the widest graph column leading; a
/// row naming no template keeps its text, an empty template drops it, an
/// unknown one gets a notice.
pub open spec fn commit_rest(
    body: Seq<u8>,
    graph_end: usize,
    graph_col: usize,
    last_is_edge: bool,
    template_name: Option<Vec<u8>>,
    f: Map<Seq<u8>, Seq<u8>>,
    templates: Map<Seq<u8>, CompiledTemplate>,
    metrics: Map<Seq<u8>, TemplateMetrics>,
    max_graph_col: usize,
    c: ConfigView,
) -> Seq<u8> {
    let lead = gap(max_graph_col, graph_col);
    let left = left_of(last_is_edge);
    match template_name {
        None => body.subrange(graph_end as int, body.len() as int),
        Some(n) => if templates.contains_key(n@) {
            match compiled_view(templates[n@]) {
                None => Seq::empty(),
                Some(nodes) => row_bytes(nodes, f, anchors_for(metrics, n@), lead, left, c),
            }
        } else {
            row_bytes(missing_nodes(), missing_fields(n@, c), Seq::empty(), lead, left, c)
        },
    }
}

/// One line rendered: whether it fits the machine (its offsets inside it,
/// its row within `usize`), its bytes, and the hydra walk after it.
pub struct RowOut {
    pub ok: bool,
    pub bytes: Seq<u8>,
    pub walk: WalkView,
}

/// What a classified line renders to, the hydra walk standing at `w`. A
/// commit row takes the walk one step (see `markup_step`): the separator
/// row due before it, its graph restyled with its node in its stack's
/// colour, then its content (see `commit_rest`) with the `bookmarks` field
/// as the walk rewrote it. The root row: its graph, a two-cell gap and its
/// value. Anything else as `line_bytes` has it. Only commit rows move the
/// walk.
pub open spec fn row_out(
    line: Seq<u8>,
    row: RowKind,
    templates: Map<Seq<u8>, CompiledTemplate>,
    metrics: Map<Seq<u8>, TemplateMetrics>,
    max_graph_col: usize,
    c: ConfigView,
    w: WalkView,
) -> RowOut {
    let body = body_of(line);
    match row {
        RowKind::Commit { graph_end, graph_col, last_is_edge, template_name, fields } => {
            if graph_end > body.len() {
                RowOut { ok: false, bytes: Seq::empty(), walk: w }
            } else {
                let prefix = body.subrange(0, graph_end as int);
                let st = markup_step(w, bookmarks_of(fields_view(fields@)), prefix, c);
                let f = with_bookmarks(fields_view(fields@), st.bookmarks);
                RowOut {
                    ok: commit_fits(template_name, f, templates, metrics, gap(max_graph_col, graph_col), c),
                    bytes: st.padding + dim_graph(Seq::empty(), prefix, c.graph_collapse, st.node, c) + commit_rest(
                        body,
                        graph_end,
                        graph_col,
                        last_is_edge,
                        template_name,
                        f,
                        templates,
                        metrics,
                        max_graph_col,
                        c,
                    ) + nl_of(line),
                    walk: st.walk,
                }
            }
        },
        RowKind::Root { graph_end, value } => RowOut {
            ok: graph_end <= body.len(),
            bytes: dim_graph(Seq::empty(), body.subrange(0, graph_end as int), c.graph_collapse, None, c) + pad_bytes(
                2,
                LeftSide::GraphNode,
                c,
            ) + value@ + nl_of(line),
            walk: w,
        },
        RowKind::Passthrough { parsed } => RowOut {
            ok: parsed matches Some(p) ==> p.graph_end <= body.len(),
            bytes: line_bytes(line, parsed, c),
            walk: w,
        },
    }
}

fn emit_commit_rest(
    body: &[u8],
    graph_end: usize,
    graph_col: usize,
    last_is_edge: bool,
    template_name: &Option<Vec<u8>>,
    fields: &Fields,
    templates: &ByteMap<CompiledTemplate>,
    metrics: &ByteMap<TemplateMetrics>,
    max_graph_col: usize,
    c: &Config,
    out: &mut Vec<u8>,
)
    requires
        graph_end <= body@.len(),
        commit_fits(*template_name, fields_view(fields@), templates@, metrics@, gap(max_graph_col, graph_col), c@),
    ensures
        final(out)@ == old(out)@ + commit_rest(
            body@,
            graph_end,
            graph_col,
            last_is_edge,
            *template_name,
            fields_view(fields@),
            templates@,
            metrics@,
            max_graph_col,
            c@,
        ),
{
    let leading_pad = if max_graph_col > graph_col { max_graph_col - graph_col } else { 0 };
    let leading_left = if last_is_edge { LeftSide::GraphEdge } else { LeftSide::GraphNode };
    match template_name {
        None => {
            push_all(out, &body[graph_end..body.len()]);
        },
        Some(name) => {
            match templates.get(name.as_slice()) {
                Some(CompiledTemplate::Empty) => {
                    assert(final(out)@ =~= old(out)@ + Seq::<u8>::empty());
                },
                Some(CompiledTemplate::Parsed(template)) => {
                    let anchors: &[usize] = match metrics.get(name.as_slice()) {
                        Some(m) => m.anchors.as_slice(),
                        None => {
                            let e: &[usize] = &[];
                            assert(e@ =~= Seq::<usize>::empty());
                            e
                        },
                    };
                    render_row(template, fields, leading_pad, leading_left, anchors, c, out);
                },
                None => {
                    emit_missing_template(name.as_slice(), leading_pad, leading_left, c, out);
                },
            }
        },
    }
}

/// Whether a commit row fits (see `commit_fits`).
fn commit_fits_check(
    template_name: &Option<Vec<u8>>,
    fields: &Fields,
    templates: &ByteMap<CompiledTemplate>,
    metrics: &ByteMap<TemplateMetrics>,
    lead: usize,
    c: &Config,
) -> (r: bool)
    ensures
        r == commit_fits(*template_name, fields_view(fields@), templates@, metrics@, lead, c@),
{
    match template_name {
        None => true,
        Some(name) => match templates.get(name.as_slice()) {
            Some(CompiledTemplate::Empty) => true,
            Some(CompiledTemplate::Parsed(template)) => {
                let anchors: &[usize] = match metrics.get(name.as_slice()) {
                    Some(m) => m.anchors.as_slice(),
                    None => {
                        let e: &[usize] = &[];
                        assert(e@ =~= Seq::<usize>::empty());
                        e
                    },
                };
                row_fits_check(template, fields, anchors, lead)
            },
            None => {
                let (synth, f) = missing_template_row(name.as_slice(), c);
                let none: &[usize] = &[];
                assert(none@ =~= Seq::<usize>::empty());
                row_fits_check(&synth, &f, none, lead)
            },
        },
    }
}

/// The graph and content of a commit row whose walk step is done: checked
/// to fit, then appended to `out`.
fn emit_commit_body(
    body: &[u8],
    graph_end: usize,
    graph_col: usize,
    last_is_edge: bool,
    template_name: &Option<Vec<u8>>,
    fields: &Fields,
    node: Option<&[u8]>,
    templates: &ByteMap<CompiledTemplate>,
    metrics: &ByteMap<TemplateMetrics>,
    max_graph_col: usize,
    c: &Config,
    out: &mut Vec<u8>,
) -> (r: bool)
    requires
        graph_end <= body@.len(),
    ensures
        r == commit_fits(*template_name, fields_view(fields@), templates@, metrics@, gap(max_graph_col, graph_col), c@),
        r ==> final(out)@ == old(out)@ + dim_graph(
            Seq::empty(),
            body@.subrange(0, graph_end as int),
            c@.graph_collapse,
            opt_bytes(node),
            c@,
        ) + commit_rest(
            body@,
            graph_end,
            graph_col,
            last_is_edge,
            *template_name,
            fields_view(fields@),
            templates@,
            metrics@,
            max_graph_col,
            c@,
        ),
        !r ==> final(out)@ == old(out)@,
{
    let lead = if max_graph_col > graph_col { max_graph_col - graph_col } else { 0 };
    if !commit_fits_check(template_name, fields, templates, metrics, lead, c) {
        return false;
    }
    let ghost o = out@;
    let prefix = &body[0..graph_end];
    emit_dim_graph(prefix, c.graph_collapse, node, c, out);
    proof { crate::render::lemma_dim_graph_append(o, prefix@, c@.graph_collapse, opt_bytes(node), c@); }
    emit_commit_rest(body, graph_end, graph_col, last_is_edge, template_name, fields, templates, metrics, max_graph_col, c, out);
    true
}

/// Render one classified line, the walk taking the step a commit row makes
/// (see `row_out`). When the line does not fit nothing is written, though
/// the walk still steps.
#[verifier::rlimit(60)]
#[verifier::spinoff_prover]
pub fn emit_classified(
    line: &[u8],
    row: &RowKind,
    walk: &mut Walk,
    templates: &ByteMap<CompiledTemplate>,
    metrics: &ByteMap<TemplateMetrics>,
    max_graph_col: usize,
    c: &Config,
    out: &mut Vec<u8>,
) -> (r: bool)
    requires
        old(walk).wf(),
        row matches RowKind::Commit { fields, .. } ==> fields.wf(),
    ensures
        final(walk).wf(),
        ({
            let ro = row_out(line@, *row, templates@, metrics@, max_graph_col, c@, old(walk)@);
            &&& r == ro.ok
            &&& final(walk)@ == ro.walk
            &&& r ==> final(out)@ == old(out)@ + ro.bytes
            &&& !r ==> final(out)@ == old(out)@
        }),
{
    let (body, trailing_nl) = strip_trailing_nl(line);
    let ghost o = out@;
    let collapse = c.graph_collapse;
    match row {
        RowKind::Commit { graph_end, graph_col, last_is_edge, template_name, fields } => {
            if *graph_end > body.len() {
                return false;
            }
            let mut buf: Vec<u8> = Vec::new();
            let m = walk.markup(fields, &body[0..*graph_end], c, &mut buf);
            let ghost pad = buf@;
            let node: Option<&[u8]> = match &m.node {
                Some(v) => Some(v.as_slice()),
                None => None,
            };
            let fits = match &m.bookmarks {
                Some(b) => {
                    let shown = fields_with(fields, BOOKMARKS_FIELD.as_bytes(), b.as_slice());
                    emit_commit_body(body, *graph_end, *graph_col, *last_is_edge, template_name, &shown, node, templates, metrics, max_graph_col, c, &mut buf)
                },
                None => {
                    emit_commit_body(body, *graph_end, *graph_col, *last_is_edge, template_name, fields, node, templates, metrics, max_graph_col, c, &mut buf)
                },
            };
            if !fits {
                return false;
            }
            if trailing_nl {
                buf.push(10);
            }
            push_all(out, buf.as_slice());
            assert(out@ =~= o + row_out(line@, *row, templates@, metrics@, max_graph_col, c@, old(walk)@).bytes);
            true
        },
        RowKind::Root { graph_end, value } => {
            if *graph_end > body.len() {
                return false;
            }
            emit_dim_graph(&body[0..*graph_end], collapse, None, c, out);
            proof { crate::render::lemma_dim_graph_append(o, body@.subrange(0, *graph_end as int), collapse, None, c@); }
            emit_node_pad(2, c, out);
            push_all(out, value.as_slice());
            if trailing_nl {
                out.push(10);
            }
            assert(out@ =~= o + row_out(line@, *row, templates@, metrics@, max_graph_col, c@, old(walk)@).bytes);
            true
        },
        RowKind::Passthrough { parsed } => {
            match parsed {
                Some(p) => {
                    if p.graph_end > body.len() {
                        return false;
                    }
                },
                None => {},
            }
            emit_line(line, parsed.as_ref(), c, out);
            true
        },
    }
}

/// Whether every commit row can be measured for its anchors (see
/// `rows_measurable`).
pub fn rows_measurable_check(
    rows: &Vec<RowKind>,
    templates: &ByteMap<CompiledTemplate>,
    topo: &Option<Topology>,
) -> (r: bool)
    requires
        topo matches Some(t) ==> t.wf(),
        rows_wf(rows@),
    ensures
        r == rows_measurable(rows@, templates@, topo_view(*topo)),
{
    let ghost tv = topo_view(*topo);
    let mut k: usize = 0;
    while k < rows.len()
        invariant
            k <= rows@.len(),
            topo matches Some(t) ==> t.wf(),
            tv == topo_view(*topo),
            rows_wf(rows@),
            forall|j: int| 0 <= j < k ==> match #[trigger] rows@[j] {
                RowKind::Commit { template_name, fields, .. } => match parsed_template(templates@, template_name) {
                    Some(nodes) => natural_col(nodes, measured(tv, fields_view(fields@)), nodes.len() as int) <= usize::MAX,
                    None => true,
                },
                _ => true,
            },
        decreases rows@.len() - k,
    {
        assert(rows_wf(rows@));
        let ghost rk = rows@[k as int];
        match &rows[k] {
            RowKind::Commit { template_name, fields, .. } => {
                if let Some(name) = template_name {
                    if let Some(CompiledTemplate::Parsed(template)) = templates.get(name.as_slice()) {
                        let mut shown: Vec<u8> = Vec::new();
                        let fits = if replace_names(topo, fields, &mut shown) {
                            let f2 = fields_with(fields, BOOKMARKS_FIELD.as_bytes(), shown.as_slice());
                            anchors_fit(template, &f2)
                        } else {
                            anchors_fit(template, fields)
                        };
                        if !fits {
                            return false;
                        }
                    }
                }
            },
            _ => {},
        }
        k = k + 1;
    }
    true
}

// ---------------------------------------------------------------------------
// Batches

pub open spec fn lines_view(lines: Seq<Vec<u8>>) -> Seq<Seq<u8>> {
    Seq::new(lines.len(), |i: int| lines[i]@)
}

/// `rows[k]` is how line `k` classifies.
pub open spec fn all_classified(rows: Seq<RowKind>, lines: Seq<Seq<u8>>, collapse: bool) -> bool {
    &&& rows.len() == lines.len()
    &&& forall|k: int| 0 <= k < rows.len() ==> classified(#[trigger] rows[k], body_of(lines[k]), collapse)
}

/// The first `k` lines rendered one after another, the walk starting at
/// `w`; they fit when each does.
pub open spec fn batch_out(
    lines: Seq<Seq<u8>>,
    rows: Seq<RowKind>,
    k: int,
    templates: Map<Seq<u8>, CompiledTemplate>,
    metrics: Map<Seq<u8>, TemplateMetrics>,
    max_graph_col: usize,
    c: ConfigView,
    w: WalkView,
) -> RowOut
    decreases k,
{
    if k <= 0 {
        RowOut { ok: true, bytes: Seq::empty(), walk: w }
    } else {
        let prev = batch_out(lines, rows, k - 1, templates, metrics, max_graph_col, c, w);
        let r = row_out(lines[k - 1], rows[k - 1], templates, metrics, max_graph_col, c, prev.walk);
        RowOut { ok: prev.ok && r.ok, bytes: prev.bytes + r.bytes, walk: r.walk }
    }
}

proof fn lemma_batch_fails_on(
    lines: Seq<Seq<u8>>,
    rows: Seq<RowKind>,
    j: int,
    k: int,
    templates: Map<Seq<u8>, CompiledTemplate>,
    metrics: Map<Seq<u8>, TemplateMetrics>,
    max_graph_col: usize,
    c: ConfigView,
    w: WalkView,
)
    requires
        0 <= j <= k,
        !batch_out(lines, rows, j, templates, metrics, max_graph_col, c, w).ok,
    ensures
        !batch_out(lines, rows, k, templates, metrics, max_graph_col, c, w).ok,
    decreases k,
{
    if j < k {
        lemma_batch_fails_on(lines, rows, j, k - 1, templates, metrics, max_graph_col, c, w);
    }
}

/// Classify every line of a batch (see `classify_row`).
pub fn classify_lines(lines: &Vec<Vec<u8>>, collapse: bool) -> (rows: Vec<RowKind>)
    ensures
        all_classified(rows@, lines_view(lines@), collapse),
{
    let mut rows: Vec<RowKind> = Vec::new();
    let mut k: usize = 0;
    while k < lines.len()
        invariant
            k <= lines@.len(),
            rows@.len() == k,
            forall|j: int| 0 <= j < k ==> classified(#[trigger] rows@[j], body_of(lines@[j]@), collapse),
        decreases lines@.len() - k,
    {
        let (body, _) = strip_trailing_nl(lines[k].as_slice());
        assert(body@ == body_of(lines@[k as int]@));
        rows.push(classify_row(body, collapse));
        k = k + 1;
    }
    rows
}

/// No commit row carries a hydra bookmark (see `plain_row`).
pub open spec fn no_hydra_rows(t: TopoView, rows: Seq<RowKind>) -> bool {
    forall|k: int|
        0 <= k < rows.len() ==> (#[trigger] rows[k] matches RowKind::Commit { fields, .. } ==> plain_row(
            t,
            bookmarks_of(fields_view(fields@)),
        ))
}

/// A log with no hydra in it gets no markup: when no commit row carries a
/// hydra bookmark, a batch renders byte for byte as it does with hydra off
/// (the walk starting outside every stack, and staying there), and pass 1
/// measures its rows the same.
pub proof fn lemma_no_hydra_no_markup(
    lines: Seq<Seq<u8>>,
    rows: Seq<RowKind>,
    k: int,
    templates: Map<Seq<u8>, CompiledTemplate>,
    metrics: Map<Seq<u8>, TemplateMetrics>,
    max_graph_col: usize,
    c: ConfigView,
    w: WalkView,
    m: Map<Seq<u8>, Seq<usize>>,
)
    requires
        0 <= k <= rows.len(),
        rows.len() == lines.len(),
        w.topo matches Some(t) && no_hydra_rows(t, rows),
        w.color.len() == 0,
    ensures
        ({
            let on = batch_out(lines, rows, k, templates, metrics, max_graph_col, c, w);
            let off = batch_out(lines, rows, k, templates, metrics, max_graph_col, c, WalkView { topo: None, ..w });
            &&& on.bytes == off.bytes
            &&& on.ok == off.ok
            &&& on.walk == w
            &&& off.walk == WalkView { topo: None, ..w }
        }),
        metrics_after(rows, k, templates, w.topo, m) == metrics_after(rows, k, templates, None, m),
    decreases k,
{
    if k > 0 {
        lemma_no_hydra_no_markup(lines, rows, k - 1, templates, metrics, max_graph_col, c, w, m);
        let t = w.topo->0;
        match rows[k - 1] {
            RowKind::Commit { fields, .. } => {
                assert(no_hydra_rows(t, rows));
                assert(plain_row(t, bookmarks_of(fields_view(fields@))));
                let body = body_of(lines[k - 1]);
                crate::hydra::lemma_plain_row_no_markup(w, bookmarks_of(fields_view(fields@)), body.subrange(
                    0,
                    rows[k - 1]->Commit_graph_end as int,
                ), c);
                crate::hydra::lemma_rewrite_plain(
                    t,
                    HydraColorsView::Off,
                    false,
                    Seq::empty(),
                    bookmarks_of(fields_view(fields@)),
                    0,
                );
            },
            _ => {},
        }
    }
}

/// Render the classified lines of a batch into `out`, in order, the walk
/// stepping through them (see `batch_out`). At the first line that does not
/// fit, stop and say so; what was written before it stays.
pub fn emit_rows(
    lines: &Vec<Vec<u8>>,
    rows: &Vec<RowKind>,
    walk: &mut Walk,
    templates: &ByteMap<CompiledTemplate>,
    metrics: &ByteMap<TemplateMetrics>,
    max_graph_col: usize,
    c: &Config,
    out: &mut Vec<u8>,
) -> (r: bool)
    requires
        old(walk).wf(),
        rows@.len() == lines@.len(),
        rows_wf(rows@),
    ensures
        final(walk).wf(),
        ({
            let b = batch_out(lines_view(lines@), rows@, rows@.len() as int, templates@, metrics@, max_graph_col, c@, old(walk)@);
            &&& r == b.ok
            &&& r ==> final(walk)@ == b.walk && final(out)@ == old(out)@ + b.bytes
        }),
        !r ==> exists|k: int|
            #![trigger batch_out(lines_view(lines@), rows@, k, templates@, metrics@, max_graph_col, c@, old(walk)@)]
            0 <= k < rows@.len() && {
                let before = batch_out(lines_view(lines@), rows@, k, templates@, metrics@, max_graph_col, c@, old(walk)@);
                let upto = batch_out(lines_view(lines@), rows@, k + 1, templates@, metrics@, max_graph_col, c@, old(walk)@);
                &&& before.ok
                &&& !upto.ok
                &&& final(out)@ == old(out)@ + before.bytes
                &&& final(walk)@ == upto.walk
            },
{
    let ghost o = out@;
    let ghost w0 = walk@;
    let ghost lv = lines_view(lines@);
    let n = rows.len();
    let mut k: usize = 0;
    let mut ok = true;
    let ghost mut kf: int = 0;
    assert(o + Seq::<u8>::empty() =~= o);
    while k < n && ok
        invariant
            n == rows@.len(),
            k <= n,
            rows@.len() == lines@.len(),
            lv == lines_view(lines@),
            rows_wf(rows@),
            walk.wf(),
            ok ==> batch_out(lv, rows@, k as int, templates@, metrics@, max_graph_col, c@, w0).ok,
            ok ==> walk@ == batch_out(lv, rows@, k as int, templates@, metrics@, max_graph_col, c@, w0).walk,
            ok ==> out@ == o + batch_out(lv, rows@, k as int, templates@, metrics@, max_graph_col, c@, w0).bytes,
            !ok ==> !batch_out(lv, rows@, n as int, templates@, metrics@, max_graph_col, c@, w0).ok,
            !ok ==> {
                let before = batch_out(lv, rows@, kf, templates@, metrics@, max_graph_col, c@, w0);
                let upto = batch_out(lv, rows@, kf + 1, templates@, metrics@, max_graph_col, c@, w0);
                &&& 0 <= kf < n
                &&& before.ok
                &&& !upto.ok
                &&& out@ == o + before.bytes
                &&& walk@ == upto.walk
            },
        decreases n - k, (if ok { 1int } else { 0int }),
    {
        assert(rows_wf(rows@));
        assert(lv[k as int] == lines@[k as int]@);
        let ghost rk = rows@[k as int];
        if emit_classified(lines[k].as_slice(), &rows[k], walk, templates, metrics, max_graph_col, c, out) {
            k = k + 1;
            assert(out@ =~= o + batch_out(lv, rows@, k as int, templates@, metrics@, max_graph_col, c@, w0).bytes);
        } else {
            proof {
                lemma_batch_fails_on(lv, rows@, k + 1, n as int, templates@, metrics@, max_graph_col, c@, w0);
                kf = k as int;
            }
            ok = false;
        }
    }
    ok
}

/// One batch, both passes: classify its lines, widen the anchors and the
/// graph column by its rows, measured with the hydra stand-ins in place
/// (they only grow, so earlier batches stay aligned), then render it, the
/// walk stepping through it. `None` when a row is too wide to measure or
/// render within `usize`; then nothing is written, though the anchors and
/// the walk may already have moved.
pub fn process_batch(
    lines: &Vec<Vec<u8>>,
    templates: &ByteMap<CompiledTemplate>,
    metrics: &mut ByteMap<TemplateMetrics>,
    walk: &mut Walk,
    max_graph_col: &mut usize,
    c: &Config,
    out: &mut Vec<u8>,
) -> (r: Option<Vec<RowKind>>)
    requires
        old(metrics).wf(),
        old(walk).wf(),
    ensures
        final(metrics).wf(),
        final(walk).wf(),
        r matches Some(rows) ==> {
            let b = batch_out(
                lines_view(lines@),
                rows@,
                rows@.len() as int,
                templates@,
                final(metrics)@,
                *final(max_graph_col),
                c@,
                old(walk)@,
            );
            &&& all_classified(rows@, lines_view(lines@), c@.graph_collapse)
            &&& anchors_of(final(metrics)@) == metrics_after(
                rows@,
                rows@.len() as int,
                templates@,
                old(walk)@.topo,
                anchors_of(old(metrics)@),
            )
            &&& *final(max_graph_col) as int == max_col_after(rows@, rows@.len() as int, *old(max_graph_col) as int)
            &&& b.ok
            &&& final(walk)@ == b.walk
            &&& final(out)@ == old(out)@ + b.bytes
        },
        r is None ==> final(out)@ == old(out)@,
        r is None ==> exists|rows: Seq<RowKind>|
            #![trigger all_classified(rows, lines_view(lines@), c@.graph_collapse)]
            all_classified(rows, lines_view(lines@), c@.graph_collapse) && ({
                ||| {
                    &&& !rows_measurable(rows, templates@, old(walk)@.topo)
                    &&& final(metrics)@ == old(metrics)@
                    &&& *final(max_graph_col) == *old(max_graph_col)
                    &&& final(walk)@ == old(walk)@
                }
                ||| {
                    &&& anchors_of(final(metrics)@) == metrics_after(
                        rows,
                        rows.len() as int,
                        templates@,
                        old(walk)@.topo,
                        anchors_of(old(metrics)@),
                    )
                    &&& *final(max_graph_col) as int == max_col_after(rows, rows.len() as int, *old(max_graph_col) as int)
                    &&& !batch_out(
                        lines_view(lines@),
                        rows,
                        rows.len() as int,
                        templates@,
                        final(metrics)@,
                        *final(max_graph_col),
                        c@,
                        old(walk)@,
                    ).ok
                }
            }),
{
    let rows = classify_lines(lines, c.graph_collapse);
    proof {
        assert forall|k: int| 0 <= k < rows@.len() implies (#[trigger] rows@[k] matches RowKind::Commit { fields, .. } ==> fields.wf()) by {
            assert(classified(rows@[k], body_of(lines_view(lines@)[k]), c@.graph_collapse));
        }
    }
    if !rows_measurable_check(&rows, templates, &walk.topo) {
        assert(all_classified(rows@, lines_view(lines@), c@.graph_collapse));
        return None;
    }
    accumulate_metrics(&rows, templates, &walk.topo, metrics, max_graph_col);
    let mut buf: Vec<u8> = Vec::new();
    if !emit_rows(lines, &rows, walk, templates, metrics, *max_graph_col, c, &mut buf) {
        assert(all_classified(rows@, lines_view(lines@), c@.graph_collapse));
        return None;
    }
    push_all(out, buf.as_slice());
    Some(rows)
}

// ---------------------------------------------------------------------------
// Lines

/// The lines of `s[i..]`, each keeping its newline; a last line without one
/// is kept too.
pub open spec fn lines_from(s: Seq<u8>, i: int) -> Seq<Seq<u8>>
    decreases s.len() - i,
{
    if i < 0 || i >= s.len() {
        Seq::empty()
    } else {
        match crate::dsl::find_byte(s, 10, i) {
            Some(e) => if i <= e < s.len() {
                seq![s.subrange(i, e + 1)] + lines_from(s, e + 1)
            } else {
                Seq::empty()
            },
            None => seq![s.subrange(i, s.len() as int)],
        }
    }
}

/// Split input into lines, each keeping its `\n`.
pub fn split_lines(input: &[u8]) -> (r: Vec<Vec<u8>>)
    ensures
        r@.len() == lines_from(input@, 0).len(),
        forall|k: int| 0 <= k < r@.len() ==> #[trigger] r@[k]@ == lines_from(input@, 0)[k],
{
    let n = input.len();
    let mut lines: Vec<Vec<u8>> = Vec::new();
    let mut start: usize = 0;
    let ghost mut done: Seq<Seq<u8>> = Seq::empty();
    while start < n
        invariant
            n == input@.len(),
            start <= n,
            lines@.len() == done.len(),
            forall|k: int| 0 <= k < lines@.len() ==> #[trigger] lines@[k]@ == done[k],
            done + lines_from(input@, start as int) == lines_from(input@, 0),
        decreases n - start,
    {
        let ghost s0 = start as int;
        let mut e = start;
        while e < n && input[e] != 10
            invariant
                s0 <= e <= n,
                n == input@.len(),
                crate::dsl::find_byte(input@, 10, e as int) == crate::dsl::find_byte(input@, 10, s0),
            decreases n - e,
        {
            e = e + 1;
        }
        if e < n {
            lines.push(copy_bytes(&input[start..e + 1]));
            proof {
                done = done.push(input@.subrange(s0, e + 1));
            }
            start = e + 1;
            assert(done + lines_from(input@, start as int) =~= lines_from(input@, 0));
        } else {
            lines.push(copy_bytes(&input[start..n]));
            proof {
                done = done.push(input@.subrange(s0, n as int));
            }
            start = n;
            assert(done + lines_from(input@, start as int) =~= lines_from(input@, 0));
        }
    }
    assert(done =~= lines_from(input@, 0));
    lines
}

/// Byte strings put back together, first to last.
pub open spec fn concat(ls: Seq<Seq<u8>>) -> Seq<u8>
    decreases ls.len(),
{
    if ls.len() == 0 {
        Seq::empty()
    } else {
        ls[0] + concat(ls.drop_first())
    }
}

/// Splitting into lines loses no byte: the lines put back together are the
/// input.
pub proof fn lemma_lines_concat(s: Seq<u8>, i: int)
    requires
        0 <= i <= s.len(),
    ensures
        concat(lines_from(s, i)) == s.subrange(i, s.len() as int),
    decreases s.len() - i,
{
    if i < s.len() {
        match crate::dsl::find_byte(s, 10, i) {
            Some(e) => {
                crate::dsl::lemma_find_byte(s, 10, i);
                lemma_lines_concat(s, e + 1);
                let rest = lines_from(s, e + 1);
                let head = s.subrange(i, e + 1);
                assert((seq![head] + rest).drop_first() =~= rest);
                assert((seq![head] + rest)[0] == head);
                assert(lines_from(s, i) == seq![head] + rest);
                assert(concat(seq![head] + rest) == head + concat(rest));
                assert(head + s.subrange(e + 1, s.len() as int) =~= s.subrange(i, s.len() as int));
            },
            None => {
                let l = seq![s.subrange(i, s.len() as int)];
                assert(l.drop_first() =~= Seq::<Seq<u8>>::empty());
                assert(concat(l.drop_first()) == Seq::<u8>::empty());
                assert(concat(l) == l[0] + concat(l.drop_first()));
                assert(s.subrange(i, s.len() as int) + Seq::<u8>::empty() =~= s.subrange(i, s.len() as int));
            },
        }
    } else {
        assert(s.subrange(i, s.len() as int) =~= Seq::<u8>::empty());
    }
}

} // verus!

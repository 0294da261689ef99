use vstd::prelude::*;
use vstd::string::StringSliceAdditionalSpecFns;
use crate::ansi::{csi_end, skip_csi, drops_fg, fg_reset, FG_RESET, sgr_params, is_fg_color_sgr};
use crate::bytes::push_all;
use crate::config::{
    Config, ConfigView, HydraColors, HydraColorsView, HydraPrefixes, HydraPrefixReplace, opt_view,
    leader_of, truecolor,
};
use crate::bytes::copy_bytes;
use crate::dsl::{field_value, fields_view, Fields};
use crate::map::bytes_eq;
use crate::render::{dim_graph, emit_dim_graph, graph_nodes_to_verticals, node_cell, node_cell_from, verticals_from};
use crate::text::push_decimal;
use vstd::utf8::{encode_utf8, valid_utf8};

verus! {

/// The field a row's bookmarks are in.
pub const BOOKMARKS_FIELD: &'static str = "bookmarks";

// ---------------------------------------------------------------------------
// Escapes

/// `s[i..]` without its CSI escapes.
pub open spec fn strip_ansi_from(s: Seq<u8>, i: int) -> Seq<u8>
    decreases s.len() - i,
{
    if i < 0 || i >= s.len() {
        Seq::empty()
    } else {
        match csi_end(s, i) {
            Some(e) => if i < e <= s.len() { strip_ansi_from(s, e) } else { Seq::empty() },
            None => seq![s[i]] + strip_ansi_from(s, i + 1),
        }
    }
}

/// Append `bytes` minus its CSI escapes, so bookmark names split on real
/// whitespace rather than on the colour codes around them.
pub fn strip_ansi_into(bytes: &[u8], out: &mut Vec<u8>)
    ensures
        final(out)@ == old(out)@ + strip_ansi_from(bytes@, 0),
{
    let n = bytes.len();
    let mut i: usize = 0;
    while i < n
        invariant
            n == bytes@.len(),
            i <= n,
            out@ + strip_ansi_from(bytes@, i as int) == old(out)@ + strip_ansi_from(bytes@, 0),
        decreases n - i,
    {
        let ghost pre = out@;
        let ghost i0 = i as int;
        if let Some(after) = skip_csi(bytes, i) {
            i = after;
            continue;
        }
        out.push(bytes[i]);
        i = i + 1;
        assert(out@ + strip_ansi_from(bytes@, i as int) =~= pre + strip_ansi_from(bytes@, i0));
    }
}

// ---------------------------------------------------------------------------
// Palette order

/// Position of `name` among the stacks seen from `i` on, first sighting
/// first; past the end when it is not there.
pub open spec fn index_from(seen: Seq<Seq<u8>>, name: Seq<u8>, i: int) -> int
    decreases seen.len() - i,
{
    if i < 0 || i >= seen.len() {
        seen.len() as int
    } else if seen[i] == name {
        i
    } else {
        index_from(seen, name, i + 1)
    }
}

/// A stack's palette slot: where the log first named it.
pub open spec fn index_in(seen: Seq<Seq<u8>>, name: Seq<u8>) -> int {
    index_from(seen, name, 0)
}

/// The stacks seen once `name` has been looked up: appended when new.
pub open spec fn seen_after(seen: Seq<Seq<u8>>, name: Seq<u8>) -> Seq<Seq<u8>> {
    if index_in(seen, name) == seen.len() { seen.push(name) } else { seen }
}

pub open spec fn names_view(seen: Seq<Vec<u8>>) -> Seq<Seq<u8>> {
    Seq::new(seen.len(), |i: int| seen[i]@)
}

/// A stack's slot: where the log first named it, top first. A stack keeps
/// its slot once met; a new one takes the next.
pub fn index_of(seen: &mut Vec<Vec<u8>>, name: &[u8]) -> (r: usize)
    ensures
        r as int == index_in(names_view(old(seen)@), name@),
        names_view(final(seen)@) == seen_after(names_view(old(seen)@), name@),
{
    let ghost s0 = names_view(seen@);
    let mut i: usize = 0;
    while i < seen.len()
        invariant
            i <= seen@.len(),
            seen@ == old(seen)@,
            s0 == names_view(seen@),
            index_from(s0, name@, i as int) == index_from(s0, name@, 0),
        decreases seen@.len() - i,
    {
        if bytes_eq(seen[i].as_slice(), name) {
            return i;
        }
        i = i + 1;
    }
    seen.push(copy_bytes(name));
    assert(names_view(seen@) =~= s0.push(name@));
    seen.len() - 1
}

/// A slot, once given, stays: looking a name up again gives the same slot
/// and leaves the list as it is, and looking up any name never moves the
/// names already there.
pub proof fn lemma_index_stable(seen: Seq<Seq<u8>>, name: Seq<u8>, other: Seq<u8>)
    ensures
        index_in(seen_after(seen, name), name) == index_in(seen, name),
        seen_after(seen_after(seen, name), name) == seen_after(seen, name),
        seen_after(seen, other).len() >= seen.len(),
        forall|i: int| 0 <= i < seen.len() ==> #[trigger] seen_after(seen, other)[i] == seen[i],
        index_in(seen, name) < seen.len() ==> seen[index_in(seen, name)] == name,
{
    lemma_index_from(seen, name, 0);
    let s2 = seen_after(seen, name);
    if index_in(seen, name) == seen.len() {
        lemma_index_from_prefix(seen, name, 0);
        assert(s2[seen.len() as int] == name);
        lemma_index_from_found(s2, name, 0, seen.len() as int);
    }
    lemma_index_from(s2, name, 0);
}

proof fn lemma_index_from(seen: Seq<Seq<u8>>, name: Seq<u8>, i: int)
    requires
        0 <= i <= seen.len(),
    ensures
        i <= index_from(seen, name, i) <= seen.len(),
        index_from(seen, name, i) < seen.len() ==> seen[index_from(seen, name, i)] == name,
        forall|j: int| i <= j < index_from(seen, name, i) ==> seen[j] != name,
    decreases seen.len() - i,
{
    if i < seen.len() && seen[i] != name {
        lemma_index_from(seen, name, i + 1);
    }
}

proof fn lemma_index_from_prefix(seen: Seq<Seq<u8>>, name: Seq<u8>, i: int)
    requires
        0 <= i <= seen.len(),
        index_from(seen, name, i) == seen.len(),
    ensures
        forall|j: int| i <= j < seen.len() ==> seen[j] != name,
    decreases seen.len() - i,
{
    if i < seen.len() {
        lemma_index_from_prefix(seen, name, i + 1);
    }
}

proof fn lemma_index_from_found(seen: Seq<Seq<u8>>, name: Seq<u8>, i: int, k: int)
    requires
        0 <= i <= k < seen.len(),
        seen[k] == name,
        forall|j: int| i <= j < k ==> seen[j] != name,
    ensures
        index_from(seen, name, i) == k,
    decreases k - i,
{
    if i < k {
        lemma_index_from_found(seen, name, i + 1, k);
    }
}

// ---------------------------------------------------------------------------
// Hashed colours

/// Hue bands a hashed colour never takes (a colour a stack must not read as,
/// ±10°): `#a6e3a1` at 115° and `#f5c2e7` at 316°; low and high hue
/// inclusive, ascending and disjoint.
pub const RESERVED_HUES: [(u32, u32); 2] = [(105, 125), (306, 326)];

/// Hues left to hand out: the circle less both reserved bands.
pub const HUE_SPACE: u64 = 318;

pub open spec fn hue_spec(index: int) -> int {
    let h1 = if index >= 105 { index + 21 } else { index };
    if h1 >= 306 { h1 + 21 } else { h1 }
}

/// The `index`-th hue still on offer: reserved bands are skipped, not
/// clamped.
pub fn hue_of(index: u32) -> (r: u32)
    requires
        index < HUE_SPACE,
    ensures
        r == hue_spec(index as int),
        r < 360,
        !(105 <= r <= 125),
        !(306 <= r <= 326),
{
    let mut hue = index;
    if hue >= 105 {
        hue = hue + (125 - 105 + 1);
    }
    if hue >= 306 {
        hue = hue + (326 - 306 + 1);
    }
    hue
}

/// Every hue on offer is distinct: `hue_of` strictly increases, stays on
/// the circle, and avoids both reserved bands.
pub proof fn lemma_hue_of_increasing(a: int, b: int)
    requires
        0 <= a < b < HUE_SPACE,
    ensures
        hue_spec(a) < hue_spec(b),
        hue_spec(b) < 360,
        !(105 <= hue_spec(a) <= 125),
        !(306 <= hue_spec(a) <= 326),
{
}

/// FNV-1a over the name's bytes.
pub open spec fn fnv(s: Seq<u8>) -> u64
    decreases s.len(),
{
    if s.len() == 0 {
        0xcbf2_9ce4_8422_2325u64
    } else {
        vstd::wrapping::u64_specs::wrapping_mul(fnv(s.drop_last()) ^ (s.last() as u64), 0x0000_0100_0000_01b3u64)
    }
}

fn fnv_hash(s: &[u8]) -> (h: u64)
    ensures
        h == fnv(s@),
{
    let mut h: u64 = 0xcbf2_9ce4_8422_2325;
    let mut i: usize = 0;
    while i < s.len()
        invariant
            i <= s@.len(),
            h == fnv(s@.subrange(0, i as int)),
        decreases s@.len() - i,
    {
        assert(s@.subrange(0, i + 1).drop_last() =~= s@.subrange(0, i as int));
        h = h ^ (s[i] as u64);
        h = h.wrapping_mul(0x0000_0100_0000_01b3);
        i = i + 1;
    }
    assert(s@.subrange(0, s@.len() as int) =~= s@);
    h
}

/// The hue a stack's name hashes to.
pub open spec fn name_hue(name: Seq<u8>) -> int {
    hue_spec((fnv(name) % (HUE_SPACE as u64)) as int)
}

/// Lightness at `hue`, in two-thousandths: 0.62, lifted on a linear ramp to
/// 0.70 within 20° of 241° (blues read dark against the terminal).
pub open spec fn lightness_2000(hue: int) -> int {
    let d = if hue >= 241 { hue - 241 } else { 241 - hue };
    if d >= 20 { 1240 } else { 1400 - 8 * d }
}

/// One channel of HSL(hue, 0.68, lightness) in 0..=255, rounded half up:
/// `part` is the channel's share over 24 000 000 before the base is added.
pub open spec fn channel(part: int, hue: int) -> int {
    let ln = lightness_2000(hue);
    let c = (4000 - 2 * ln) * 68;
    let b = (200 * ln - c) * 60;
    let q = 24_000_000int;
    let v = (2 * (part + b) * 255 + q) / (2 * q);
    if v < 0 { 0 } else if v > 255 { 255 } else { v }
}

/// The red, green and blue of HSL(hue, 0.68, lightness(hue)): the chroma
/// and the second-largest component laid out by the hue's sixth.
pub open spec fn hue_rgb(hue: int) -> (int, int, int) {
    let ln = lightness_2000(hue);
    let c = (4000 - 2 * ln) * 68;
    let m = hue % 120;
    let x = c * (60 - if m >= 60 { m - 60 } else { 60 - m });
    let cc = 120 * c;
    let xx = 2 * x;
    let sector = hue / 60;
    let (r, g, b) = if sector == 0 {
        (cc, xx, 0)
    } else if sector == 1 {
        (xx, cc, 0)
    } else if sector == 2 {
        (0, cc, xx)
    } else if sector == 3 {
        (0, xx, cc)
    } else if sector == 4 {
        (xx, 0, cc)
    } else {
        (cc, 0, xx)
    };
    (channel(r, hue), channel(g, hue), channel(b, hue))
}

/// The truecolor SGR a stack name hashes to.
pub open spec fn hash_color_spec(name: Seq<u8>) -> Seq<u8> {
    let (r, g, b) = hue_rgb(name_hue(name));
    truecolor(r, g, b)
}

fn channel_exec(part: u64, hue: u32) -> (r: u8)
    requires
        hue < 360,
        part <= 120 * 103360,
    ensures
        r as int == channel(part as int, hue as int),
{
    let d: u64 = if hue >= 241 { (hue - 241) as u64 } else { (241 - hue) as u64 };
    let ln: u64 = if d >= 20 { 1240 } else { 1400 - 8 * d };
    let c: u64 = (4000 - 2 * ln) * 68;
    let b: u64 = (200 * ln - c) * 60;
    let q: u64 = 24_000_000;
    let v = (2 * (part + b) * 255 + q) / (2 * q);
    if v > 255 { 255 } else { v as u8 }
}

/// The chroma and second component of `hue`, laid out by its sixth, over
/// 24 000 000 (see `hue_rgb`).
fn hue_parts(hue: u32) -> (r: (u64, u64, u64))
    requires
        hue < 360,
    ensures
        r.0 <= 120 * 103360,
        r.1 <= 120 * 103360,
        r.2 <= 120 * 103360,
        hue_rgb(hue as int) == (
            channel(r.0 as int, hue as int),
            channel(r.1 as int, hue as int),
            channel(r.2 as int, hue as int),
        ),
{
    let d: u64 = if hue >= 241 { (hue - 241) as u64 } else { (241 - hue) as u64 };
    let ln: u64 = if d >= 20 { 1240 } else { 1400 - 8 * d };
    assert(ln as int == lightness_2000(hue as int));
    let c: u64 = (4000 - 2 * ln) * 68;
    assert(c <= 103360);
    let m: u64 = (hue % 120) as u64;
    let k: u64 = 60 - if m >= 60 { m - 60 } else { 60 - m };
    assert(k <= 60);
    assert(c * k <= 103360 * 60) by (nonlinear_arith)
        requires
            c <= 103360,
            k <= 60,
    ;
    let x: u64 = c * k;
    let cc = 120 * c;
    let xx = 2 * x;
    let sector = hue / 60;
    if sector == 0 {
        (cc, xx, 0)
    } else if sector == 1 {
        (xx, cc, 0)
    } else if sector == 2 {
        (0, cc, xx)
    } else if sector == 3 {
        (0, xx, cc)
    } else if sector == 4 {
        (xx, 0, cc)
    } else {
        (cc, 0, xx)
    }
}

/// The SGR a stack's name hashes to: FNV-1a picks a hue among those on
/// offer; saturation and lightness are fixed so every stack lands in the
/// same legible band.
pub fn hash_color(name: &[u8]) -> (r: Vec<u8>)
    ensures
        r@ == hash_color_spec(name@),
{
    let h = fnv_hash(name);
    let hue = hue_of((h % HUE_SPACE) as u32);
    let (r, g, b) = hue_parts(hue);
    let rr = channel_exec(r, hue);
    let gg = channel_exec(g, hue);
    let bb = channel_exec(b, hue);
    let mut out: Vec<u8> = Vec::new();
    out.push(27);
    out.push(91);
    out.push(51);
    out.push(56);
    out.push(59);
    out.push(50);
    out.push(59);
    push_decimal(&mut out, rr as u64);
    out.push(59);
    push_decimal(&mut out, gg as u64);
    out.push(59);
    push_decimal(&mut out, bb as u64);
    out.push(109);
    assert(out@ =~= truecolor(rr as int, gg as int, bb as int));
    out
}

/// A stack's colour under `hydra.colors`: none, the hashed one, or the
/// palette entry at its slot (wrapping).
pub open spec fn stack_color_spec(colors: HydraColorsView, name: Seq<u8>, index: int) -> Seq<u8> {
    match colors {
        HydraColorsView::Off => Seq::empty(),
        HydraColorsView::Hash => hash_color_spec(name),
        HydraColorsView::Palette(p) => if p.len() == 0 { Seq::empty() } else { p[index % (p.len() as int)] },
    }
}

pub fn stack_color(colors: &HydraColors, name: &[u8], index: usize) -> (r: Vec<u8>)
    ensures
        r@ == stack_color_spec(colors@, name@, index as int),
{
    match colors {
        HydraColors::Off => Vec::new(),
        HydraColors::Hash => hash_color(name),
        HydraColors::Palette(p) => if p.len() == 0 {
            Vec::new()
        } else {
            copy_bytes(p[index % p.len()].as_slice())
        },
    }
}


// ---------------------------------------------------------------------------
// Names

/// `String::from_utf8_lossy`: invalid sequences become U+FFFD. What it makes
/// of invalid input is named, not spelled out.
pub uninterp spec fn lossy(b: Seq<u8>) -> Seq<u8>;

/// `String::from_utf8_lossy`, as bytes: well-formed UTF-8 comes back as it
/// is (the documentation says the result then borrows the input); for
/// anything else the result is the named `lossy`.
#[verifier::external_body]
fn utf8_lossy(b: &[u8]) -> (r: Vec<u8>)
    ensures
        r@ == lossy(b@),
        valid_utf8(b@) ==> r@ == b@,
{
    String::from_utf8_lossy(b).into_owned().into_bytes()
}

/// The bookmark naming in force, as bytes.
pub struct TopoView {
    pub stack_prefix: Seq<u8>,
    pub wc_prefix: Seq<u8>,
    pub anchors: Seq<Seq<u8>>,
    pub stack_replace: Option<Seq<u8>>,
    pub wc_replace: Option<Seq<u8>>,
    pub anchor_replace: Seq<Option<Seq<u8>>>,
}

/// The bookmark names a hydra uses, each paired with what it reads as.
pub struct Topology {
    /// `HYS-`: the marker bookmark that opens a stack.
    pub stack_prefix: String,
    /// `HYWC-`: a stack's working copy, which sits outside the stack.
    pub wc_prefix: String,
    /// `HYB`, `HYH`, `HYCR`.
    pub anchors: Vec<String>,
    /// What each leader renders as; `None` passes the name through.
    pub stack_replace: Option<Vec<u8>>,
    pub wc_replace: Option<Vec<u8>>,
    pub anchor_replace: Vec<Option<Vec<u8>>>,
}

pub open spec fn opt_seq(o: Option<Vec<u8>>) -> Option<Seq<u8>> {
    match o {
        Some(v) => Some(v@),
        None => None,
    }
}

pub open spec fn opt_utf8(o: Option<Seq<char>>) -> Option<Seq<u8>> {
    match o {
        Some(s) => Some(encode_utf8(s)),
        None => None,
    }
}

impl View for Topology {
    type V = TopoView;

    open spec fn view(&self) -> TopoView {
        TopoView {
            stack_prefix: encode_utf8(self.stack_prefix@),
            wc_prefix: encode_utf8(self.wc_prefix@),
            anchors: Seq::new(self.anchors@.len(), |i: int| encode_utf8(self.anchors@[i]@)),
            stack_replace: opt_seq(self.stack_replace),
            wc_replace: opt_seq(self.wc_replace),
            anchor_replace: Seq::new(self.anchor_replace@.len(), |i: int| opt_seq(self.anchor_replace@[i])),
        }
    }
}

/// The naming `hydra.prefixes` and `hydra.prefixes-replace` give.
pub open spec fn topo_of(p: crate::config::HydraPrefixesView, r: crate::config::HydraPrefixReplaceView) -> TopoView {
    TopoView {
        stack_prefix: encode_utf8(p.prefix + p.stack_head + "-"@),
        wc_prefix: encode_utf8(p.prefix + p.stack_working_copy + "-"@),
        anchors: seq![
            encode_utf8(p.prefix + p.base),
            encode_utf8(p.prefix + p.head),
            encode_utf8(p.prefix + p.conflict_resolution),
        ],
        stack_replace: opt_utf8(leader_of(r.stack_head, r.prefix, p.stack_head + "-"@)),
        wc_replace: opt_utf8(leader_of(r.stack_working_copy, r.prefix, p.stack_working_copy + "-"@)),
        anchor_replace: seq![
            opt_utf8(leader_of(r.base, r.prefix, p.base)),
            opt_utf8(leader_of(r.head, r.prefix, p.head)),
            opt_utf8(leader_of(r.conflict_resolution, r.prefix, p.conflict_resolution)),
        ],
    }
}

fn string_bytes(o: Option<String>) -> (r: Option<Vec<u8>>)
    ensures
        opt_seq(r) == opt_utf8(opt_view(o)),
{
    match o {
        Some(s) => Some(copy_bytes(s.as_str().as_bytes())),
        None => None,
    }
}

/// `s` without jj's trailing out-of-sync `*`.
pub open spec fn strip_star(s: Seq<u8>) -> Seq<u8> {
    if s.len() > 0 && s.last() == 42 { s.drop_last() } else { s }
}

/// A remote ref (`name@remote`), not a local bookmark.
pub open spec fn has_at(s: Seq<u8>) -> bool {
    exists|i: int| 0 <= i < s.len() && s[i] == 64
}

pub open spec fn starts_with(s: Seq<u8>, p: Seq<u8>) -> bool {
    p.len() <= s.len() && s.subrange(0, p.len() as int) == p
}

/// `name` with a leader taken off, when it starts with it and something
/// follows.
pub open spec fn after_leader(name: Seq<u8>, p: Seq<u8>) -> Option<Seq<u8>> {
    if starts_with(name, p) && name.len() > p.len() {
        Some(name.subrange(p.len() as int, name.len() as int))
    } else {
        None
    }
}

/// Index of the first anchor equal to `name` at or after `i`.
pub open spec fn anchor_index(anchors: Seq<Seq<u8>>, name: Seq<u8>, i: int) -> Option<int>
    decreases anchors.len() - i,
{
    if i < 0 || i >= anchors.len() {
        None
    } else if anchors[i] == name {
        Some(i)
    } else {
        anchor_index(anchors, name, i + 1)
    }
}

/// What a bookmark token reads as: the stand-in for its leader and how many
/// bytes of the name it stands in for; `None` leaves the token alone.
pub open spec fn replacement_spec(t: TopoView, token: Seq<u8>) -> Option<(Seq<u8>, int)> {
    let name = strip_star(token);
    if has_at(name) {
        None
    } else if after_leader(name, t.stack_prefix) is Some {
        match t.stack_replace {
            Some(r) => Some((r, t.stack_prefix.len() as int)),
            None => None,
        }
    } else if after_leader(name, t.wc_prefix) is Some {
        match t.wc_replace {
            Some(r) => Some((r, t.wc_prefix.len() as int)),
            None => None,
        }
    } else {
        match anchor_index(t.anchors, name, 0) {
            Some(i) => if i < t.anchor_replace.len() {
                match t.anchor_replace[i] {
                    Some(r) => Some((r, t.anchors[i].len() as int)),
                    None => None,
                }
            } else {
                None
            },
            None => None,
        }
    }
}

/// The stack a single bookmark names: `HYS-<name>` and `HYWC-<name>` both
/// name theirs (remote refs and jj's `*` as for marks).
pub open spec fn stack_of_spec(t: TopoView, token: Seq<u8>) -> Option<Seq<u8>> {
    let name = strip_star(token);
    if has_at(name) {
        None
    } else {
        match after_leader(name, t.stack_prefix) {
            Some(rest) => Some(lossy(rest)),
            None => match after_leader(name, t.wc_prefix) {
                Some(rest) => Some(lossy(rest)),
                None => None,
            },
        }
    }
}

fn strip_star_exec(s: &[u8]) -> (r: &[u8])
    ensures
        r@ == strip_star(s@),
{
    if s.len() > 0 && s[s.len() - 1] == 42 {
        &s[0..s.len() - 1]
    } else {
        s
    }
}

fn has_at_exec(s: &[u8]) -> (r: bool)
    ensures
        r == has_at(s@),
{
    let mut i: usize = 0;
    while i < s.len()
        invariant
            i <= s@.len(),
            forall|k: int| 0 <= k < i ==> s@[k] != 64,
        decreases s@.len() - i,
    {
        if s[i] == 64 {
            return true;
        }
        i = i + 1;
    }
    false
}

fn after_leader_exec<'a>(name: &'a [u8], p: &[u8]) -> (r: Option<&'a [u8]>)
    ensures
        match r {
            Some(rest) => after_leader(name@, p@) == Some(rest@),
            None => after_leader(name@, p@) is None,
        },
{
    if p.len() <= name.len() && bytes_eq(&name[0..p.len()], p) && name.len() > p.len() {
        Some(&name[p.len()..name.len()])
    } else {
        None
    }
}

impl Topology {
    pub open spec fn wf(&self) -> bool {
        self.anchors@.len() == 3 && self.anchor_replace@.len() == 3
    }

    /// The naming in force for `hydra.prefixes` and `hydra.prefixes-replace`.
    pub fn from_prefixes(p: &HydraPrefixes, r: &HydraPrefixReplace) -> (t: Topology)
        ensures
            t.wf(),
            t@ == topo_of(p@, r@),
    {
        let anchors = p.anchors();
        let reps = p.anchors_replace(r);
        let mut anchor_replace: Vec<Option<Vec<u8>>> = Vec::new();
        let mut i: usize = 0;
        while i < 3
            invariant
                i <= 3,
                reps@.len() == 3,
                anchor_replace@.len() == i,
                forall|k: int| 0 <= k < i ==> #[trigger] opt_seq(anchor_replace@[k]) == opt_utf8(opt_view(reps@[k])),
            decreases 3 - i,
        {
            let o = match &reps[i] {
                Some(s) => Some(copy_bytes(s.as_str().as_bytes())),
                None => None,
            };
            anchor_replace.push(o);
            i = i + 1;
        }
        let t = Topology {
            stack_prefix: p.stack_marker(),
            wc_prefix: p.working_copy(),
            anchors,
            stack_replace: string_bytes(p.stack_marker_replace(r)),
            wc_replace: string_bytes(p.working_copy_replace(r)),
            anchor_replace,
        };
        assert(t@.anchors =~= topo_of(p@, r@).anchors);
        assert(t@.anchor_replace =~= topo_of(p@, r@).anchor_replace);
        t
    }

    /// Some name has a stand-in: the rewrite has more than colours to do.
    pub fn replaces(&self) -> (b: bool)
        requires
            self.wf(),
        ensures
            b == (self@.stack_replace is Some || self@.wc_replace is Some || exists|i: int|
                0 <= i < 3 && #[trigger] self@.anchor_replace[i] is Some),
    {
        let r = self.stack_replace.is_some() || self.wc_replace.is_some() || self.anchor_replace[0].is_some()
            || self.anchor_replace[1].is_some() || self.anchor_replace[2].is_some();
        assert(r ==> (self@.stack_replace is Some || self@.wc_replace is Some || self@.anchor_replace[0] is Some
            || self@.anchor_replace[1] is Some || self@.anchor_replace[2] is Some));
        r
    }

    /// What one bookmark token renders as (see `replacement_spec`).
    pub fn replacement_of(&self, token: &[u8]) -> (r: Option<(&[u8], usize)>)
        requires
            self.wf(),
        ensures
            match r {
                Some((b, n)) => replacement_spec(self@, token@) == Some((b@, n as int)),
                None => replacement_spec(self@, token@) is None,
            },
    {
        let name = strip_star_exec(token);
        if has_at_exec(name) {
            return None;
        }
        let sp = self.stack_prefix.as_str().as_bytes();
        if after_leader_exec(name, sp).is_some() {
            return match &self.stack_replace {
                Some(r) => Some((r.as_slice(), sp.len())),
                None => None,
            };
        }
        let wp = self.wc_prefix.as_str().as_bytes();
        if after_leader_exec(name, wp).is_some() {
            return match &self.wc_replace {
                Some(r) => Some((r.as_slice(), wp.len())),
                None => None,
            };
        }
        let mut i: usize = 0;
        while i < 3
            invariant
                self.wf(),
                i <= 3,
                name@ == strip_star(token@),
                !has_at(name@),
                after_leader(name@, self@.stack_prefix) is None,
                after_leader(name@, self@.wc_prefix) is None,
                anchor_index(self@.anchors, name@, i as int) == anchor_index(self@.anchors, name@, 0),
            decreases 3 - i,
        {
            let a = self.anchors[i].as_str().as_bytes();
            if bytes_eq(a, name) {
                return match &self.anchor_replace[i] {
                    Some(r) => Some((r.as_slice(), a.len())),
                    None => None,
                };
            }
            i = i + 1;
        }
        None
    }

    /// The stack a single bookmark names (see `stack_of_spec`).
    pub fn stack_of(&self, token: &[u8]) -> (r: Option<Vec<u8>>)
        ensures
            opt_seq(r) == stack_of_spec(self@, token@),
    {
        let name = strip_star_exec(token);
        if has_at_exec(name) {
            return None;
        }
        match after_leader_exec(name, self.stack_prefix.as_str().as_bytes()) {
            Some(rest) => Some(utf8_lossy(rest)),
            None => match after_leader_exec(name, self.wc_prefix.as_str().as_bytes()) {
                Some(rest) => Some(utf8_lossy(rest)),
                None => None,
            },
        }
    }
}


// ---------------------------------------------------------------------------
// Marks

/// Where a row sits relative to the stacks.
#[derive(Debug)]
pub enum Mark {
    /// Opens the stack of this name.
    Stack(Vec<u8>),
    /// Carries this stack's working copy.
    WorkingCopy(Vec<u8>),
    /// Outside every stack (a hydra anchor).
    Outside,
    /// Carries on in whatever stack the walk is in.
    Inside,
}

pub enum MarkView {
    Stack(Seq<u8>),
    WorkingCopy(Seq<u8>),
    Outside,
    Inside,
}

impl View for Mark {
    type V = MarkView;

    open spec fn view(&self) -> MarkView {
        match self {
            Mark::Stack(n) => MarkView::Stack(n@),
            Mark::WorkingCopy(n) => MarkView::WorkingCopy(n@),
            Mark::Outside => MarkView::Outside,
            Mark::Inside => MarkView::Inside,
        }
    }
}

/// ASCII whitespace, as `u8::is_ascii_whitespace` has it.
pub open spec fn ascii_ws(b: u8) -> bool {
    b == 32 || b == 9 || b == 10 || b == 12 || b == 13
}

/// End of the whitespace-free token starting at `i`.
pub open spec fn token_end(s: Seq<u8>, i: int) -> int
    decreases s.len() - i,
{
    if i < 0 || i >= s.len() || ascii_ws(s[i]) { i } else { token_end(s, i + 1) }
}

pub open spec fn mark_end(wc: Option<Seq<u8>>, outside: bool) -> MarkView {
    match wc {
        Some(n) => MarkView::WorkingCopy(n),
        None => if outside { MarkView::Outside } else { MarkView::Inside },
    }
}

/// The mark from the tokens of `s` (split on ASCII whitespace) from `i`:
/// a stack marker opens its stack at once; otherwise a working copy wins,
/// then an anchor; remote refs and empty tokens count for nothing.
pub open spec fn mark_from(t: TopoView, s: Seq<u8>, i: int, wc: Option<Seq<u8>>, outside: bool) -> MarkView
    decreases s.len() - i,
{
    if i < 0 || i > s.len() {
        mark_end(wc, outside)
    } else {
        let e = token_end(s, i);
        let tok = strip_star(s.subrange(i, e));
        if e < i || e > s.len() {
            mark_end(wc, outside)
        } else if tok.len() > 0 && !has_at(tok) && after_leader(tok, t.stack_prefix) is Some {
            MarkView::Stack(lossy(after_leader(tok, t.stack_prefix)->0))
        } else {
            let (wc2, out2) = if tok.len() == 0 || has_at(tok) {
                (wc, outside)
            } else if after_leader(tok, t.wc_prefix) is Some {
                (Some(lossy(after_leader(tok, t.wc_prefix)->0)), outside)
            } else if anchor_index(t.anchors, tok, 0) is Some {
                (wc, true)
            } else {
                (wc, outside)
            };
            if e >= s.len() { mark_end(wc2, out2) } else { mark_from(t, s, e + 1, wc2, out2) }
        }
    }
}

pub open spec fn mark_spec(t: TopoView, bookmarks: Seq<u8>) -> MarkView {
    mark_from(t, bookmarks, 0, None, false)
}

pub open spec fn opt_vec(o: Option<Vec<u8>>) -> Option<Seq<u8>> {
    match o {
        Some(v) => Some(v@),
        None => None,
    }
}

fn is_anchor(t: &Topology, tok: &[u8]) -> (r: bool)
    requires
        t.wf(),
    ensures
        r == (anchor_index(t@.anchors, tok@, 0) is Some),
{
    let mut i: usize = 0;
    while i < 3
        invariant
            t.wf(),
            i <= 3,
            anchor_index(t@.anchors, tok@, i as int) == anchor_index(t@.anchors, tok@, 0),
        decreases 3 - i,
    {
        if bytes_eq(t.anchors[i].as_str().as_bytes(), tok) {
            return true;
        }
        i = i + 1;
    }
    false
}

/// Classify a row from its (escape-free) bookmarks (see `mark_from`).
pub fn mark_of(topo: &Topology, bookmarks: &[u8]) -> (r: Mark)
    requires
        topo.wf(),
    ensures
        r@ == mark_spec(topo@, bookmarks@),
{
    let n = bookmarks.len();
    let mut wc: Option<Vec<u8>> = None;
    let mut outside = false;
    let mut i: usize = 0;
    loop
        invariant
            n == bookmarks@.len(),
            i <= n,
            topo.wf(),
            mark_from(topo@, bookmarks@, i as int, opt_vec(wc), outside) == mark_spec(topo@, bookmarks@),
        ensures
            mark_end(opt_vec(wc), outside) == mark_spec(topo@, bookmarks@),
        decreases n - i,
    {
        let ghost wc0 = opt_vec(wc);
        let ghost out0 = outside;
        let mut e = i;
        while e < n && !(bookmarks[e] == 32 || bookmarks[e] == 9 || bookmarks[e] == 10 || bookmarks[e] == 12
            || bookmarks[e] == 13)
            invariant
                i <= e <= n,
                n == bookmarks@.len(),
                token_end(bookmarks@, e as int) == token_end(bookmarks@, i as int),
            decreases n - e,
        {
            e = e + 1;
        }
        let tok = strip_star_exec(&bookmarks[i..e]);
        if tok.len() > 0 && !has_at_exec(tok) {
            if let Some(rest) = after_leader_exec(tok, topo.stack_prefix.as_str().as_bytes()) {
                return Mark::Stack(utf8_lossy(rest));
            }
            if let Some(rest) = after_leader_exec(tok, topo.wc_prefix.as_str().as_bytes()) {
                wc = Some(utf8_lossy(rest));
            } else if is_anchor(topo, tok) {
                outside = true;
            }
        }
        assert(token_end(bookmarks@, i as int) == e);
        assert(mark_from(topo@, bookmarks@, i as int, wc0, out0) == if e >= n {
            mark_end(opt_vec(wc), outside)
        } else {
            mark_from(topo@, bookmarks@, e + 1, opt_vec(wc), outside)
        });
        if e >= n {
            break;
        }
        i = e + 1;
    }
    match wc {
        Some(name) => Mark::WorkingCopy(name),
        None => if outside {
            Mark::Outside
        } else {
            Mark::Inside
        },
    }
}


// ---------------------------------------------------------------------------
// Rewriting the bookmarks field

/// A complete SGR escape setting a foreground colour.
pub open spec fn fg_sgr(seg: Seq<u8>) -> bool {
    seg.len() >= 3 && seg[0] == 0x1b && seg[1] == 0x5b && seg.last() == 0x6d && drops_fg(
        seg.subrange(2, seg.len() - 1),
    )
}

/// One bookmark token from `i`, copied: escapes stay (jj's foreground ones
/// dropped when `drop_fg`), the stand-in goes in front of the first visible
/// byte, and `drop_left` visible bytes of the name it stands for are left
/// out.
pub open spec fn token_from(
    tok: Seq<u8>,
    i: int,
    drop_fg: bool,
    stand_in: Seq<u8>,
    pending: bool,
    drop_left: int,
) -> Seq<u8>
    decreases tok.len() - i,
{
    if i < 0 || i >= tok.len() {
        Seq::empty()
    } else {
        match csi_end(tok, i) {
            Some(e) => if i < e <= tok.len() {
                let seg = tok.subrange(i, e);
                (if drop_fg && fg_sgr(seg) { Seq::empty() } else { seg }) + token_from(
                    tok,
                    e,
                    drop_fg,
                    stand_in,
                    pending,
                    drop_left,
                )
            } else {
                Seq::empty()
            },
            None => (if pending { stand_in } else { Seq::empty() }) + if drop_left > 0 {
                token_from(tok, i + 1, drop_fg, stand_in, false, drop_left - 1)
            } else {
                seq![tok[i]] + token_from(tok, i + 1, drop_fg, stand_in, false, drop_left)
            },
        }
    }
}

pub open spec fn token_bytes(tok: Seq<u8>, drop_fg: bool, replace: Option<(Seq<u8>, int)>) -> Seq<u8> {
    match replace {
        Some((r, n)) => token_from(tok, 0, drop_fg, r, true, n),
        None => token_from(tok, 0, drop_fg, Seq::empty(), false, 0),
    }
}

pub open spec fn opt_rep(r: Option<(&[u8], usize)>) -> Option<(Seq<u8>, int)> {
    match r {
        Some((b, n)) => Some((b@, n as int)),
        None => None,
    }
}

/// Copy one bookmark token into `out` (see `token_from`).
pub fn emit_token(token: &[u8], drop_fg: bool, replace: Option<(&[u8], usize)>, out: &mut Vec<u8>)
    ensures
        final(out)@ == old(out)@ + token_bytes(token@, drop_fg, opt_rep(replace)),
{
    let empty: &[u8] = &[];
    let (stand_in, mut drop_left) = match replace {
        Some((r, n)) => (r, n),
        None => (empty, 0usize),
    };
    let mut pending = replace.is_some();
    let ghost total = old(out)@ + token_bytes(token@, drop_fg, opt_rep(replace));
    assert(token_bytes(token@, drop_fg, opt_rep(replace)) == token_from(token@, 0, drop_fg, stand_in@, pending, drop_left as int)) by {
        assert(empty@ =~= Seq::<u8>::empty());
    }
    let n = token.len();
    let mut i: usize = 0;
    while i < n
        invariant
            n == token@.len(),
            i <= n,
            out@ + token_from(token@, i as int, drop_fg, stand_in@, pending, drop_left as int) == total,
        decreases n - i,
    {
        let ghost pre = out@;
        let ghost i0 = i as int;
        let ghost p0 = pending;
        let ghost d0 = drop_left as int;
        if let Some(end) = skip_csi(token, i) {
            let seg = &token[i..end];
            let fg = match sgr_params(seg) {
                Some(params) => is_fg_color_sgr(params),
                None => false,
            };
            assert(fg == fg_sgr(seg@)) by {
                if seg@.len() >= 3 && seg@[0] == 0x1b && seg@[1] == 0x5b && seg@.last() == 0x6d {
                    assert(seg@.subrange(2, seg@.len() - 1) =~= seg@.subrange(2, seg@.len() - 1));
                }
            }
            if !(drop_fg && fg) {
                push_all(out, seg);
            }
            i = end;
            assert(out@ + token_from(token@, i as int, drop_fg, stand_in@, pending, drop_left as int) =~= pre
                + token_from(token@, i0, drop_fg, stand_in@, p0, d0));
            continue;
        }
        if pending {
            push_all(out, stand_in);
            pending = false;
        }
        if drop_left > 0 {
            drop_left = drop_left - 1;
            i = i + 1;
        } else {
            out.push(token[i]);
            i = i + 1;
        }
        assert(out@ + token_from(token@, i as int, drop_fg, stand_in@, pending, drop_left as int) =~= pre
            + token_from(token@, i0, drop_fg, stand_in@, p0, d0));
    }
}

/// End of the run from `i` of bytes that are all whitespace (`ws`) or all
/// not.
pub open spec fn ws_run_end(s: Seq<u8>, i: int, ws: bool) -> int
    decreases s.len() - i,
{
    if i < 0 || i >= s.len() || ascii_ws(s[i]) != ws { i } else { ws_run_end(s, i + 1, ws) }
}

/// The bookmarks field rewritten from `i`, with the stacks seen so far:
/// the rewritten bytes, the stacks seen after, and whether any name was
/// taken over. A hydra bookmark in a coloured stack leads with that colour,
/// its name without jj's foreground and under its stand-in; one with only a
/// stand-in keeps jj's colours; every other run is copied.
pub open spec fn rewrite_from(
    t: TopoView,
    colors: HydraColorsView,
    color_on: bool,
    seen: Seq<Seq<u8>>,
    raw: Seq<u8>,
    i: int,
) -> (Seq<u8>, Seq<Seq<u8>>, bool)
    decreases raw.len() - i,
{
    if i < 0 || i >= raw.len() {
        (Seq::empty(), seen, false)
    } else {
        let ws = ascii_ws(raw[i]);
        let e = ws_run_end(raw, i + 1, ws);
        if e <= i || e > raw.len() {
            (Seq::empty(), seen, false)
        } else {
            let tok = raw.subrange(i, e);
            if ws {
                let rest = rewrite_from(t, colors, color_on, seen, raw, e);
                (tok + rest.0, rest.1, rest.2)
            } else {
                let clean = strip_ansi_from(tok, 0);
                let name = stack_of_spec(t, clean);
                let seen1 = if color_on && name is Some { seen_after(seen, name->0) } else { seen };
                let sgr: Seq<u8> = if color_on && name is Some {
                    stack_color_spec(colors, name->0, index_in(seen, name->0))
                } else {
                    Seq::empty()
                };
                let rep = replacement_spec(t, clean);
                let piece = if sgr.len() > 0 {
                    sgr + token_bytes(tok, true, rep) + fg_reset()
                } else if rep is Some {
                    token_bytes(tok, false, rep)
                } else {
                    tok
                };
                let took = sgr.len() > 0 || rep is Some;
                let rest = rewrite_from(t, colors, color_on, seen1, raw, e);
                (piece + rest.0, rest.1, took || rest.2)
            }
        }
    }
}

proof fn lemma_ws_run_end(s: Seq<u8>, i: int, ws: bool)
    requires
        0 <= i <= s.len(),
    ensures
        i <= ws_run_end(s, i, ws) <= s.len(),
    decreases s.len() - i,
{
    if i < s.len() && ascii_ws(s[i]) == ws {
        lemma_ws_run_end(s, i + 1, ws);
    }
}

/// With colours off the rewrite leaves the stacks seen alone.
pub proof fn lemma_rewrite_keeps_seen(t: TopoView, colors: HydraColorsView, seen: Seq<Seq<u8>>, raw: Seq<u8>, i: int)
    ensures
        rewrite_from(t, colors, false, seen, raw, i).1 == seen,
    decreases raw.len() - i,
{
    if 0 <= i < raw.len() {
        let ws = ascii_ws(raw[i]);
        lemma_ws_run_end(raw, i + 1, ws);
        let e = ws_run_end(raw, i + 1, ws);
        if i < e <= raw.len() {
            lemma_rewrite_keeps_seen(t, colors, seen, raw, e);
        }
    }
}

/// No run of `raw[i..]` names a hydra stack or has a stand-in.
pub open spec fn no_hydra_names(t: TopoView, raw: Seq<u8>, i: int) -> bool
    decreases raw.len() - i,
{
    if i < 0 || i >= raw.len() {
        true
    } else {
        let ws = ascii_ws(raw[i]);
        let e = ws_run_end(raw, i + 1, ws);
        if e <= i || e > raw.len() {
            true
        } else {
            let clean = strip_ansi_from(raw.subrange(i, e), 0);
            (ws || (stack_of_spec(t, clean) is None && replacement_spec(t, clean) is None)) && no_hydra_names(t, raw, e)
        }
    }
}

/// A field naming no hydra stack and no stand-in is copied as it is, with
/// nothing taken over and no stack seen.
pub proof fn lemma_rewrite_plain(
    t: TopoView,
    colors: HydraColorsView,
    color_on: bool,
    seen: Seq<Seq<u8>>,
    raw: Seq<u8>,
    i: int,
)
    requires
        0 <= i <= raw.len(),
        no_hydra_names(t, raw, i),
    ensures
        rewrite_from(t, colors, color_on, seen, raw, i) == (raw.subrange(i, raw.len() as int), seen, false),
    decreases raw.len() - i,
{
    if i < raw.len() {
        let ws = ascii_ws(raw[i]);
        lemma_ws_run_end(raw, i + 1, ws);
        let e = ws_run_end(raw, i + 1, ws);
        lemma_rewrite_plain(t, colors, color_on, seen, raw, e);
        assert(raw.subrange(i, e) + raw.subrange(e, raw.len() as int) =~= raw.subrange(i, raw.len() as int));
    } else {
        assert(raw.subrange(i, raw.len() as int) =~= Seq::<u8>::empty());
    }
}

/// A row carrying no hydra bookmark: it marks nothing and names no stack
/// or stand-in.
pub open spec fn plain_row(t: TopoView, raw: Seq<u8>) -> bool {
    mark_spec(t, strip_ansi_from(raw, 0)) is Inside && no_hydra_names(t, raw, 0)
}

/// Outside every stack, a row carrying no hydra bookmark gets no markup:
/// no separator, no node colour, no rewritten field, and the walk stays
/// where it was, just as with hydra off.
pub proof fn lemma_plain_row_no_markup(w: WalkView, raw: Seq<u8>, prefix: Seq<u8>, c: ConfigView)
    requires
        w.topo matches Some(t) && plain_row(t, raw),
        w.color.len() == 0,
    ensures
        markup_step(w, raw, prefix, c) == (StepView { walk: w, node: None, bookmarks: None, padding: Seq::empty() }),
        markup_step(WalkView { topo: None, ..w }, raw, prefix, c) == (StepView {
            walk: WalkView { topo: None, ..w },
            node: None,
            bookmarks: None,
            padding: Seq::empty(),
        }),
{
    let t = w.topo->0;
    lemma_rewrite_plain(t, c.hydra_colors, true, w.seen, raw, 0);
    lemma_rewrite_plain(t, HydraColorsView::Off, false, w.seen, raw, 0);
}

/// A rewrite that takes nothing over is a verbatim copy of the field.
pub proof fn lemma_untaken_copied(
    t: TopoView,
    colors: HydraColorsView,
    color_on: bool,
    seen: Seq<Seq<u8>>,
    raw: Seq<u8>,
    i: int,
)
    requires
        0 <= i <= raw.len(),
    ensures
        !rewrite_from(t, colors, color_on, seen, raw, i).2 ==> rewrite_from(t, colors, color_on, seen, raw, i).0
            == raw.subrange(i, raw.len() as int),
    decreases raw.len() - i,
{
    if i < raw.len() {
        let ws = ascii_ws(raw[i]);
        lemma_ws_run_end(raw, i + 1, ws);
        let e = ws_run_end(raw, i + 1, ws);
        let clean = strip_ansi_from(raw.subrange(i, e), 0);
        let name = stack_of_spec(t, clean);
        let seen1 = if !ws && color_on && name is Some { seen_after(seen, name->0) } else { seen };
        lemma_untaken_copied(t, colors, color_on, seen1, raw, e);
        assert(raw.subrange(i, e) + raw.subrange(e, raw.len() as int) =~= raw.subrange(i, raw.len() as int));
    } else {
        assert(raw.subrange(i, raw.len() as int) =~= Seq::<u8>::empty());
    }
}

/// Rewrite a row's `bookmarks` field into `out` (see `rewrite_from`);
/// `color_on` is `hydra.color-bookmarks` and `seen` the palette order.
/// Returns whether any name was taken over; `out` is cleared first.
#[verifier::rlimit(40)]
pub fn rewrite_bookmarks(
    topo: &Topology,
    colors: &HydraColors,
    color_on: bool,
    seen: &mut Vec<Vec<u8>>,
    raw: &[u8],
    out: &mut Vec<u8>,
) -> (hit: bool)
    requires
        topo.wf(),
    ensures
        ({
            let r = rewrite_from(topo@, colors@, color_on, names_view(old(seen)@), raw@, 0);
            &&& final(out)@ == r.0
            &&& names_view(final(seen)@) == r.1
            &&& hit == r.2
        }),
        !hit ==> final(out)@ == raw@,
{
    proof {
        lemma_untaken_copied(topo@, colors@, color_on, names_view(seen@), raw@, 0);
        assert(raw@.subrange(0, raw@.len() as int) =~= raw@);
    }
    out.clear();
    let ghost total = rewrite_from(topo@, colors@, color_on, names_view(seen@), raw@, 0);
    let n = raw.len();
    let mut hit = false;
    let mut i: usize = 0;
    while i < n
        invariant
            n == raw@.len(),
            i <= n,
            topo.wf(),
            ({
                let r = rewrite_from(topo@, colors@, color_on, names_view(seen@), raw@, i as int);
                &&& out@ + r.0 == total.0
                &&& r.1 == total.1
                &&& (hit || r.2) == total.2
            }),
        decreases n - i,
    {
        let ghost pre = out@;
        let ghost i0 = i as int;
        let ghost s0 = names_view(seen@);
        let ghost h0 = hit;
        let start = i;
        let ws = raw[i] == 32 || raw[i] == 9 || raw[i] == 10 || raw[i] == 12 || raw[i] == 13;
        i = i + 1;
        proof { lemma_ws_run_end(raw@, i as int, ws); }
        while i < n && (raw[i] == 32 || raw[i] == 9 || raw[i] == 10 || raw[i] == 12 || raw[i] == 13) == ws
            invariant
                start < i <= n,
                n == raw@.len(),
                ws_run_end(raw@, i as int, ws) == ws_run_end(raw@, start + 1, ws),
            decreases n - i,
        {
            i = i + 1;
        }
        let token = &raw[start..i];
        if ws {
            push_all(out, token);
            continue;
        }
        let mut scratch: Vec<u8> = Vec::new();
        strip_ansi_into(token, &mut scratch);
        assert(scratch@ =~= strip_ansi_from(token@, 0));
        let mut sgr: Vec<u8> = Vec::new();
        if color_on {
            if let Some(name) = topo.stack_of(scratch.as_slice()) {
                let index = index_of(seen, name.as_slice());
                sgr = stack_color(colors, name.as_slice(), index);
            }
        }
        let replace = topo.replacement_of(scratch.as_slice());
        if sgr.len() > 0 {
            push_all(out, sgr.as_slice());
            emit_token(token, true, replace, out);
            push_all(out, &FG_RESET);
            assert(FG_RESET@ =~= fg_reset());
            hit = true;
        } else if replace.is_some() {
            emit_token(token, false, replace, out);
            hit = true;
        } else {
            push_all(out, token);
        }
        proof {
            let r0 = rewrite_from(topo@, colors@, color_on, s0, raw@, i0);
            let r1 = rewrite_from(topo@, colors@, color_on, names_view(seen@), raw@, i as int);
            assert(out@ + r1.0 =~= pre + r0.0);
        }
    }
    hit
}


// ---------------------------------------------------------------------------
// The walk down the log

/// The row's `bookmarks` field (empty when it has none).
pub open spec fn bookmarks_of(fields: Map<Seq<u8>, Seq<u8>>) -> Seq<u8> {
    field_value(fields, BOOKMARKS_FIELD.spec_bytes())
}

fn bookmarks_value<'a>(fields: &'a Fields) -> (r: &'a [u8])
    ensures
        r@ == bookmarks_of(fields_view(fields@)),
{
    match fields.get(BOOKMARKS_FIELD.as_bytes()) {
        Some(v) => v.as_slice(),
        None => {
            let e: &[u8] = &[];
            assert(e@ =~= Seq::<u8>::empty());
            e
        },
    }
}

/// Pass 1 measures the `bookmarks` field at its rendered width, and
/// `hydra.prefixes-replace` changes that width: the names are replaced
/// (without colours, which take no width) into `out`, which is cleared
/// first. False, with `out` as it was, when hydra is off or no name is
/// taken over.
pub fn replace_names(topo: &Option<Topology>, fields: &Fields, out: &mut Vec<u8>) -> (hit: bool)
    requires
        topo matches Some(t) ==> t.wf(),
    ensures
        hit == names_replaced(topo_view(*topo), fields_view(fields@)) is Some,
        hit ==> final(out)@ == names_replaced(topo_view(*topo), fields_view(fields@))->0,
        !hit ==> final(out)@ == old(out)@,
        match topo {
            Some(t) => if t@.stack_replace is Some || t@.wc_replace is Some || exists|i: int|
                0 <= i < 3 && #[trigger] t@.anchor_replace[i] is Some {
                let r = rewrite_from(t@, HydraColorsView::Off, false, Seq::empty(), bookmarks_of(fields_view(fields@)), 0);
                hit == r.2 && (hit ==> final(out)@ == r.0)
            } else {
                !hit
            },
            None => !hit,
        },
{
    match topo {
        Some(t) => {
            if !t.replaces() {
                return false;
            }
            let raw = bookmarks_value(fields);
            let mut seen: Vec<Vec<u8>> = Vec::new();
            assert(names_view(seen@) =~= Seq::<Seq<u8>>::empty());
            let mut buf: Vec<u8> = Vec::new();
            let hit = rewrite_bookmarks(t, &HydraColors::Off, false, &mut seen, raw, &mut buf);
            if hit {
                out.clear();
                push_all(out, buf.as_slice());
                assert(out@ =~= buf@);
            }
            hit
        },
        None => false,
    }
}

pub open spec fn topo_view(t: Option<Topology>) -> Option<TopoView> {
    match t {
        Some(t) => Some(t@),
        None => None,
    }
}

/// Some name has a stand-in under this topology.
pub open spec fn renames(t: TopoView) -> bool {
    t.stack_replace is Some || t.wc_replace is Some || exists|i: int| 0 <= i < 3 && #[trigger] t.anchor_replace[i] is Some
}

/// A row's `bookmarks` field with the stand-ins in place and no colours
/// (what the field measures once rendered), or `None` when no name on it
/// is taken over.
pub open spec fn names_replaced(topo: Option<TopoView>, fields: Map<Seq<u8>, Seq<u8>>) -> Option<Seq<u8>> {
    match topo {
        Some(t) => if renames(t) {
            let r = rewrite_from(t, HydraColorsView::Off, false, Seq::empty(), bookmarks_of(fields), 0);
            if r.2 { Some(r.0) } else { None }
        } else {
            None
        },
        None => None,
    }
}

/// What one row's classification changes about its rendering: the SGR for
/// its graph node, and its rewritten `bookmarks` field.
#[derive(Debug)]
pub struct Markup {
    pub node: Option<Vec<u8>>,
    pub bookmarks: Option<Vec<u8>>,
}

/// Per-row state, walked top-down with the log.
pub struct Walk {
    /// `None` with `hydra.enable = false`: every row passes untouched.
    pub topo: Option<Topology>,
    /// Stack names in the order the log first named them, top first.
    pub seen: Vec<Vec<u8>>,
    /// SGR for the stack the walk is inside; empty outside any stack.
    pub color: Vec<u8>,
    /// The graph cell that stack's nodes sit in; `None` outside any stack.
    pub column: Option<usize>,
    /// SGR for a single working-copy row, not carried down.
    pub wc_color: Vec<u8>,
    /// Stack markers met so far, counted up to two.
    pub stacks_seen: usize,
}

pub struct WalkView {
    pub topo: Option<TopoView>,
    pub seen: Seq<Seq<u8>>,
    pub color: Seq<u8>,
    pub column: Option<int>,
    pub wc_color: Seq<u8>,
    pub stacks_seen: int,
}

impl View for Walk {
    type V = WalkView;

    open spec fn view(&self) -> WalkView {
        WalkView {
            topo: match self.topo {
                Some(t) => Some(t@),
                None => None,
            },
            seen: names_view(self.seen@),
            color: self.color@,
            column: match self.column {
                Some(c) => Some(c as int),
                None => None,
            },
            wc_color: self.wc_color@,
            stacks_seen: self.stacks_seen as int,
        }
    }
}

/// The outcome of one row: the walk after it, the node SGR, the rewritten
/// bookmarks, and the separator row to print before it.
pub struct StepView {
    pub walk: WalkView,
    pub node: Option<Seq<u8>>,
    pub bookmarks: Option<Seq<u8>>,
    pub padding: Seq<u8>,
}

/// Out of every stack.
pub open spec fn left(w: WalkView) -> WalkView {
    WalkView { color: Seq::empty(), column: None, ..w }
}

/// The separator row jj skipped under the log's top stack, drawn from the
/// next stack's marker row so every column lands where it does above and
/// below.
pub open spec fn padding_row(prefix: Seq<u8>, c: ConfigView) -> Seq<u8> {
    dim_graph(Seq::empty(), verticals_from(prefix, 0), c.graph_collapse, None, c) + seq![10u8]
}

/// One commit row, in log order. An anchor row ends the stack the walk was
/// in; a stack marker opens its stack (the second one met draws the top
/// stack's missing separator first) in its node's column; a working copy
/// ends the stack but takes its own stack's colour for itself; a row with
/// no hydra bookmark carries on in the stack, unless its node sits in
/// another column. With the bookmarks on, hydra names are rewritten.
pub open spec fn markup_step(w: WalkView, raw: Seq<u8>, prefix: Seq<u8>, c: ConfigView) -> StepView {
    match w.topo {
        None => StepView { walk: w, node: None, bookmarks: None, padding: Seq::empty() },
        Some(t) => {
            let mark = mark_spec(t, strip_ansi_from(raw, 0));
            let cell = node_cell_from(prefix, 0, 0);
            let (w1, padding) = match mark {
                MarkView::Outside => (left(w), Seq::empty()),
                MarkView::Inside => (if w.color.len() > 0 && cell != w.column { left(w) } else { w }, Seq::empty()),
                MarkView::Stack(name) => (
                    WalkView {
                        stacks_seen: if w.stacks_seen < 2 { w.stacks_seen + 1 } else { w.stacks_seen },
                        seen: seen_after(w.seen, name),
                        color: stack_color_spec(c.hydra_colors, name, index_in(w.seen, name)),
                        column: cell,
                        ..w
                    },
                    if w.stacks_seen == 1 && c.hydra_top_stack_padding { padding_row(prefix, c) } else { Seq::empty() },
                ),
                MarkView::WorkingCopy(name) => (
                    WalkView {
                        seen: seen_after(w.seen, name),
                        wc_color: stack_color_spec(c.hydra_colors, name, index_in(w.seen, name)),
                        ..left(w)
                    },
                    Seq::empty(),
                ),
            };
            let replaces = t.stack_replace is Some || t.wc_replace is Some || exists|i: int|
                0 <= i < 3 && #[trigger] t.anchor_replace[i] is Some;
            let rw = if c.hydra_color_bookmarks {
                rewrite_from(t, c.hydra_colors, true, w1.seen, raw, 0)
            } else {
                rewrite_from(t, HydraColorsView::Off, false, w1.seen, raw, 0)
            };
            let rewritten = (c.hydra_color_bookmarks || replaces) && rw.2;
            let w2 = if c.hydra_color_bookmarks { WalkView { seen: rw.1, ..w1 } } else { w1 };
            let node = if mark is WorkingCopy { w2.wc_color } else { w2.color };
            StepView {
                walk: w2,
                node: if node.len() > 0 { Some(node) } else { None },
                bookmarks: if rewritten { Some(rw.0) } else { None },
                padding: padding,
            }
        },
    }
}

/// No markup for a row that names no stack: outside every stack, a row
/// whose bookmarks name no hydra stack and have no stand-in (anchors such
/// as `HYB` included, when no key of `hydra.prefixes-replace` is set) gets
/// no node colour, no rewritten field and no separator, and the walk stays
/// outside every stack with the stacks seen unchanged; so a log that names
/// no stack gets no markup at all.
pub proof fn lemma_no_stack_no_markup(w: WalkView, raw: Seq<u8>, prefix: Seq<u8>, c: ConfigView)
    requires
        w.topo matches Some(t) && no_hydra_names(t, raw, 0) && !(mark_spec(t, strip_ansi_from(raw, 0)) is Stack)
            && !(mark_spec(t, strip_ansi_from(raw, 0)) is WorkingCopy),
        w.color.len() == 0,
    ensures
        markup_step(w, raw, prefix, c).node is None,
        markup_step(w, raw, prefix, c).bookmarks is None,
        markup_step(w, raw, prefix, c).padding == Seq::<u8>::empty(),
        markup_step(w, raw, prefix, c).walk.color.len() == 0,
        markup_step(w, raw, prefix, c).walk.seen == w.seen,
        markup_step(w, raw, prefix, c).walk.topo == w.topo,
{
    let t = w.topo->0;
    lemma_rewrite_plain(t, c.hydra_colors, true, w.seen, raw, 0);
    lemma_rewrite_plain(t, HydraColorsView::Off, false, w.seen, raw, 0);
}

/// `longer` starts with every stack `seen` holds, in the same slots.
pub open spec fn extends(longer: Seq<Seq<u8>>, seen: Seq<Seq<u8>>) -> bool {
    seen.len() <= longer.len() && forall|i: int| 0 <= i < seen.len() ==> #[trigger] longer[i] == seen[i]
}

proof fn lemma_seen_after_extends(seen: Seq<Seq<u8>>, name: Seq<u8>)
    ensures
        extends(seen_after(seen, name), seen),
{
    lemma_index_stable(seen, name, name);
}

/// A stack already seen keeps its slot however many stacks come after it.
proof fn lemma_index_kept(seen: Seq<Seq<u8>>, longer: Seq<Seq<u8>>, name: Seq<u8>)
    requires
        extends(longer, seen),
        index_in(seen, name) < seen.len(),
    ensures
        index_in(longer, name) == index_in(seen, name),
{
    lemma_index_from(seen, name, 0);
    let k = index_in(seen, name);
    assert(longer[k] == seen[k]);
    assert forall|j: int| 0 <= j < k implies longer[j] != name by {
        assert(longer[j] == seen[j]);
    }
    lemma_index_from_found(longer, name, 0, k);
}

proof fn lemma_rewrite_extends(
    t: TopoView,
    colors: HydraColorsView,
    color_on: bool,
    seen: Seq<Seq<u8>>,
    raw: Seq<u8>,
    i: int,
)
    ensures
        extends(rewrite_from(t, colors, color_on, seen, raw, i).1, seen),
    decreases raw.len() - i,
{
    if 0 <= i < raw.len() {
        let ws = ascii_ws(raw[i]);
        lemma_ws_run_end(raw, i + 1, ws);
        let e = ws_run_end(raw, i + 1, ws);
        if i < e <= raw.len() {
            let clean = strip_ansi_from(raw.subrange(i, e), 0);
            let name = stack_of_spec(t, clean);
            let seen1 = if !ws && color_on && name is Some { seen_after(seen, name->0) } else { seen };
            if !ws && color_on && name is Some {
                lemma_seen_after_extends(seen, name->0);
            }
            lemma_rewrite_extends(t, colors, color_on, seen1, raw, e);
        }
    }
}

/// Each row the walk takes only adds stacks to the ones it has seen: a
/// stack keeps its palette slot down the whole log.
pub proof fn lemma_step_extends_seen(w: WalkView, raw: Seq<u8>, prefix: Seq<u8>, c: ConfigView)
    ensures
        extends(markup_step(w, raw, prefix, c).walk.seen, w.seen),
{
    if let Some(t) = w.topo {
        let mark = mark_spec(t, strip_ansi_from(raw, 0));
        let seen1 = match mark {
            MarkView::Stack(name) => seen_after(w.seen, name),
            MarkView::WorkingCopy(name) => seen_after(w.seen, name),
            _ => w.seen,
        };
        match mark {
            MarkView::Stack(name) => lemma_seen_after_extends(w.seen, name),
            MarkView::WorkingCopy(name) => lemma_seen_after_extends(w.seen, name),
            _ => {},
        }
        lemma_rewrite_extends(t, c.hydra_colors, true, seen1, raw, 0);
    }
}

/// A stack's working copy takes its stack's colour: once a row has opened
/// stack `name`, a later row (the walk having seen at least the stacks it
/// had then) carrying `name`'s working copy gets for its node the colour
/// the stack's nodes got.
pub proof fn lemma_working_copy_takes_stack_colour(
    w1: WalkView,
    raw1: Seq<u8>,
    prefix1: Seq<u8>,
    w2: WalkView,
    raw2: Seq<u8>,
    prefix2: Seq<u8>,
    c: ConfigView,
    name: Seq<u8>,
)
    requires
        w1.topo matches Some(t) && mark_spec(t, strip_ansi_from(raw1, 0)) == MarkView::Stack(name),
        w2.topo == w1.topo,
        w2.topo matches Some(t) && mark_spec(t, strip_ansi_from(raw2, 0)) == MarkView::WorkingCopy(name),
        extends(w2.seen, markup_step(w1, raw1, prefix1, c).walk.seen),
    ensures
        markup_step(w2, raw2, prefix2, c).walk.wc_color == markup_step(w1, raw1, prefix1, c).walk.color,
{
    let t = w1.topo->0;
    let s1 = seen_after(w1.seen, name);
    lemma_index_stable(w1.seen, name, name);
    lemma_index_from(w1.seen, name, 0);
    lemma_rewrite_extends(t, c.hydra_colors, true, s1, raw1, 0);
    let after1 = markup_step(w1, raw1, prefix1, c).walk.seen;
    assert(extends(after1, s1));
    assert(index_in(s1, name) < s1.len());
    lemma_index_kept(s1, after1, name);
    lemma_index_kept(after1, w2.seen, name);
}

pub open spec fn opt_bytes_view(o: Option<Vec<u8>>) -> Option<Seq<u8>> {
    match o {
        Some(v) => Some(v@),
        None => None,
    }
}

/// The separator row (see `padding_row`), appended to `out`.
fn emit_padding(prefix: &[u8], c: &Config, out: &mut Vec<u8>)
    ensures
        final(out)@ == old(out)@ + padding_row(prefix@, c@),
{
    let verticals = graph_nodes_to_verticals(prefix);
    let ghost o = out@;
    emit_dim_graph(verticals.as_slice(), c.graph_collapse, None, c, out);
    proof { crate::render::lemma_dim_graph_append(o, verticals@, c@.graph_collapse, None, c@); }
    out.push(10);
    assert(out@ =~= o + padding_row(prefix@, c@));
}

impl Walk {
    pub open spec fn wf(&self) -> bool {
        self.topo matches Some(t) ==> t.wf()
    }

    /// A fresh walk under this configuration (`None` topology when hydra is
    /// off).
    pub fn start(c: &Config) -> (w: Walk)
        ensures
            w.wf(),
            w@ == (WalkView {
                topo: if c@.hydra_enable { Some(topo_of(c@.hydra_prefixes, c@.hydra_prefixes_replace)) } else { None },
                seen: Seq::empty(),
                color: Seq::empty(),
                column: None,
                wc_color: Seq::empty(),
                stacks_seen: 0,
            }),
    {
        let topo = if c.hydra_enable {
            Some(Topology::from_prefixes(&c.hydra_prefixes, &c.hydra_prefixes_replace))
        } else {
            None
        };
        let w = Walk {
            topo,
            seen: Vec::new(),
            color: Vec::new(),
            column: None,
            wc_color: Vec::new(),
            stacks_seen: 0,
        };
        assert(names_view(w.seen@) =~= Seq::<Seq<u8>>::empty());
        w
    }

    /// Out of every stack: the next marker starts the state over.
    fn leave(&mut self)
        ensures
            final(self)@ == left(old(self)@),
            final(self).topo == old(self).topo,
    {
        self.color.clear();
        self.column = None;
    }

    /// Classify one commit row (its fields and its graph prefix as jj drew
    /// it) and return what its rendering takes from the hydra; a separator
    /// row due before it goes to `out` (see `markup_step`).
    #[verifier::rlimit(60)]
    pub fn markup(&mut self, fields: &Fields, prefix: &[u8], c: &Config, out: &mut Vec<u8>) -> (m: Markup)
        requires
            old(self).wf(),
        ensures
            final(self).wf(),
            ({
                let st = markup_step(old(self)@, bookmarks_of(fields_view(fields@)), prefix@, c@);
                &&& final(self)@ == st.walk
                &&& opt_bytes_view(m.node) == st.node
                &&& opt_bytes_view(m.bookmarks) == st.bookmarks
                &&& final(out)@ == old(out)@ + st.padding
            }),
    {
        let raw = bookmarks_value(fields);
        let mut scratch: Vec<u8> = Vec::new();
        strip_ansi_into(raw, &mut scratch);
        assert(scratch@ =~= strip_ansi_from(raw@, 0));
        let mark = match &self.topo {
            Some(t) => mark_of(t, scratch.as_slice()),
            None => {
                return Markup { node: None, bookmarks: None };
            },
        };
        let from_wc = matches!(mark, Mark::WorkingCopy(_));
        let cell = node_cell(prefix);
        match mark {
            Mark::Outside => self.leave(),
            Mark::Inside => {
                if self.color.len() > 0 && cell != self.column {
                    self.leave();
                }
            },
            Mark::Stack(name) => {
                if self.stacks_seen == 1 && c.hydra_top_stack_padding {
                    emit_padding(prefix, c, out);
                }
                if self.stacks_seen < 2 {
                    self.stacks_seen = self.stacks_seen + 1;
                }
                let index = index_of(&mut self.seen, name.as_slice());
                self.color = stack_color(&c.hydra_colors, name.as_slice(), index);
                self.column = cell;
            },
            Mark::WorkingCopy(name) => {
                self.leave();
                let index = index_of(&mut self.seen, name.as_slice());
                self.wc_color = stack_color(&c.hydra_colors, name.as_slice(), index);
            },
        }
        let mut buf: Vec<u8> = Vec::new();
        let rewritten = match &self.topo {
            Some(t) => {
                if c.hydra_color_bookmarks {
                    rewrite_bookmarks(t, &c.hydra_colors, true, &mut self.seen, raw, &mut buf)
                } else if t.replaces() {
                    proof { lemma_rewrite_keeps_seen(t@, HydraColorsView::Off, names_view(self.seen@), raw@, 0); }
                    rewrite_bookmarks(t, &HydraColors::Off, false, &mut self.seen, raw, &mut buf)
                } else {
                    false
                }
            },
            None => false,
        };
        let node = if from_wc { copy_bytes(self.wc_color.as_slice()) } else { copy_bytes(self.color.as_slice()) };
        Markup {
            node: if node.len() > 0 { Some(node) } else { None },
            bookmarks: if rewritten { Some(buf) } else { None },
        }
    }
}

} // verus!

use vstd::prelude::*;
use vstd::string::{StringExecFns, StrSliceExecFns, StringSliceAdditionalSpecFns};
use crate::bytes::copy_bytes;
use crate::map::ByteMap;
use crate::text::{i64_text, parse_i64, push_decimal, decimal, trimmed, trim_bytes};
use vstd::utf8::encode_utf8;

verus! {

pub const DEFAULT_DASH: &'static str = "─";
pub const DEFAULT_DASH_START: &'static str = "╶";
/// Closing cell of a dash run, the cell abutting the content. Empty by
/// default so content always has a plain space to its left.
pub const DEFAULT_DASH_END: &'static str = "";
pub const DEFAULT_GRAPH_HORIZONTAL: &'static str = "𜸟";
pub const DEFAULT_GRAPH_VERTICAL: &'static str = "𜸩";
pub const DEFAULT_GRAPH_TOP_LEFT: &'static str = "𜸚";
pub const DEFAULT_GRAPH_TOP_RIGHT: &'static str = "𜸤";
pub const DEFAULT_GRAPH_BOTTOM_LEFT: &'static str = "𜸾";
pub const DEFAULT_GRAPH_BOTTOM_RIGHT: &'static str = "𜹃";
pub const DEFAULT_GRAPH_TEE_RIGHT: &'static str = "𜸨";
pub const DEFAULT_GRAPH_TEE_LEFT: &'static str = "𜸶";
pub const DEFAULT_GRAPH_TEE_DOWN: &'static str = "𜸠";
pub const DEFAULT_GRAPH_TEE_UP: &'static str = "𜹀";
pub const DEFAULT_GRAPH_CROSS: &'static str = "𜸺";
pub const DEFAULT_GRAPH_ELISION: &'static str = "𜹀";
pub const DEFAULT_STREAM_BATCH_SIZE: usize = 128;
pub const DEFAULT_LOG_ONELINE_NAME: &'static str = "log_oneline";
pub const DEFAULT_LOG_ONELINE_BODY: &'static str = " %{elastic_tab(change_id)} %{elastic_tab(commit_id)} %{elastic_tab(author)} %{elastic_tab(timestamp)} %{working_copies} %{bookmarks} %{tags} %{description}";
pub const BIJJOU_TEMPLATE_NAME_FIELD: &'static str = "bijjou_template_name";
pub const DEFAULT_HYDRA_PREFIX: &'static str = "HY";
pub const DEFAULT_HYDRA_BASE: &'static str = "B";
pub const DEFAULT_HYDRA_HEAD: &'static str = "H";
pub const DEFAULT_HYDRA_CONFLICT_RESOLUTION: &'static str = "CR";
pub const DEFAULT_HYDRA_STACK_HEAD: &'static str = "S";
pub const DEFAULT_HYDRA_STACK_WORKING_COPY: &'static str = "WC";

/// `ESC [ 38 ; 5 ; 8 m`: the default dim colour (bright black).
pub open spec fn default_dim() -> Seq<u8> {
    seq![0x1bu8, 0x5bu8, 0x33u8, 0x38u8, 0x3bu8, 0x35u8, 0x3bu8, 0x38u8, 0x6du8]
}

/// `ESC [ 38 ; 5 ; 8 m`, the default colour of dash fill.
pub const DEFAULT_DIM_ON: [u8; 9] = [0x1b, 0x5b, 0x33, 0x38, 0x3b, 0x35, 0x3b, 0x38, 0x6d];
/// `ESC [ 38 ; 5 ; 8 m`, the default colour of graph edges.
pub const DEFAULT_EDGE_DIM_ON: [u8; 9] = [0x1b, 0x5b, 0x33, 0x38, 0x3b, 0x35, 0x3b, 0x38, 0x6d];

/// The default dim colour, as bytes.
pub fn default_dim_on() -> (r: Vec<u8>)
    ensures
        r@ == default_dim(),
{
    let r = vec![0x1bu8, 0x5bu8, 0x33u8, 0x38u8, 0x3bu8, 0x35u8, 0x3bu8, 0x38u8, 0x6du8];
    assert(r@ =~= default_dim());
    r
}

/// `hydra.colors`: leave the nodes alone, hash each stack's name into a
/// colour, or index an explicit palette by the stack's position in the log.
#[derive(Debug, PartialEq, Eq)]
pub enum HydraColors {
    Off,
    Hash,
    Palette(Vec<Vec<u8>>),
}

pub enum HydraColorsView {
    Off,
    Hash,
    Palette(Seq<Seq<u8>>),
}

impl View for HydraColors {
    type V = HydraColorsView;

    open spec fn view(&self) -> HydraColorsView {
        match self {
            HydraColors::Off => HydraColorsView::Off,
            HydraColors::Hash => HydraColorsView::Hash,
            HydraColors::Palette(p) => HydraColorsView::Palette(
                Seq::new(p@.len(), |i: int| p@[i]@),
            ),
        }
    }
}

/// `hydra.prefixes`: the bookmark naming this repo's hydra uses.
#[derive(Debug, PartialEq, Eq)]
pub struct HydraPrefixes {
    /// Shared leader of every hydra bookmark: `HY`.
    pub prefix: String,
    /// Anchor suffixes: `HYB`, `HYH`, `HYCR`.
    pub base: String,
    pub head: String,
    pub conflict_resolution: String,
    /// Per-stack suffixes, each followed by `-<stack name>`.
    pub stack_head: String,
    pub stack_working_copy: String,
}

pub struct HydraPrefixesView {
    pub prefix: Seq<char>,
    pub base: Seq<char>,
    pub head: Seq<char>,
    pub conflict_resolution: Seq<char>,
    pub stack_head: Seq<char>,
    pub stack_working_copy: Seq<char>,
}

impl View for HydraPrefixes {
    type V = HydraPrefixesView;

    open spec fn view(&self) -> HydraPrefixesView {
        HydraPrefixesView {
            prefix: self.prefix@,
            base: self.base@,
            head: self.head@,
            conflict_resolution: self.conflict_resolution@,
            stack_head: self.stack_head@,
            stack_working_copy: self.stack_working_copy@,
        }
    }
}

/// `hydra.prefixes-replace`: what a hydra bookmark reads as once rendered.
/// A set key stands in for the leader `hydra.prefixes` builds out of it;
/// `prefix` replaces only the shared leader; a per-bookmark key wins over it.
#[derive(Debug, PartialEq, Eq)]
pub struct HydraPrefixReplace {
    pub prefix: Option<String>,
    pub base: Option<String>,
    pub head: Option<String>,
    pub conflict_resolution: Option<String>,
    pub stack_head: Option<String>,
    pub stack_working_copy: Option<String>,
}

pub open spec fn opt_view(o: Option<String>) -> Option<Seq<char>> {
    match o {
        Some(s) => Some(s@),
        None => None,
    }
}

pub struct HydraPrefixReplaceView {
    pub prefix: Option<Seq<char>>,
    pub base: Option<Seq<char>>,
    pub head: Option<Seq<char>>,
    pub conflict_resolution: Option<Seq<char>>,
    pub stack_head: Option<Seq<char>>,
    pub stack_working_copy: Option<Seq<char>>,
}

impl View for HydraPrefixReplace {
    type V = HydraPrefixReplaceView;

    open spec fn view(&self) -> HydraPrefixReplaceView {
        HydraPrefixReplaceView {
            prefix: opt_view(self.prefix),
            base: opt_view(self.base),
            head: opt_view(self.head),
            conflict_resolution: opt_view(self.conflict_resolution),
            stack_head: opt_view(self.stack_head),
            stack_working_copy: opt_view(self.stack_working_copy),
        }
    }
}

impl Default for HydraPrefixReplace {
    /// No stand-in set for any bookmark.
    fn default() -> (r: Self)
        ensures
            r@ == (HydraPrefixReplaceView {
                prefix: None,
                base: None,
                head: None,
                conflict_resolution: None,
                stack_head: None,
                stack_working_copy: None,
            }),
    {
        HydraPrefixReplace {
            prefix: None,
            base: None,
            head: None,
            conflict_resolution: None,
            stack_head: None,
            stack_working_copy: None,
        }
    }
}

/// `stream.batch-size`: a number of lines, or `half-pager` (sized from
/// the screen).
#[derive(PartialEq, Eq, Structural, Clone, Copy, Debug)]
pub enum BatchSize {
    Fixed(usize),
    HalfPager,
}

impl Default for BatchSize {
    fn default() -> (r: Self)
        ensures
            r == BatchSize::Fixed(DEFAULT_STREAM_BATCH_SIZE),
    {
        BatchSize::Fixed(DEFAULT_STREAM_BATCH_SIZE)
    }
}

#[derive(PartialEq, Eq, Structural, Clone, Copy, Debug)]
pub enum Activate {
    Auto,
    Always,
    Never,
}

#[derive(PartialEq, Eq, Structural, Clone, Copy, Debug)]
pub enum Pager {
    Auto,
    Always,
    Never,
}

#[derive(PartialEq, Eq, Structural, Clone, Copy, Debug)]
pub enum Color {
    Auto,
    Always,
    Never,
}

pub struct Config {
    pub dash: String,
    pub dash_start: String,
    pub dash_end: String,
    pub graph_horizontal: String,
    pub graph_vertical: String,
    pub graph_top_left: String,
    pub graph_top_right: String,
    pub graph_bottom_left: String,
    pub graph_bottom_right: String,
    pub graph_tee_right: String,
    pub graph_tee_left: String,
    pub graph_tee_down: String,
    pub graph_tee_up: String,
    pub graph_cross: String,
    pub graph_elision: String,
    pub graph_collapse: bool,
    pub dim_on: Vec<u8>,
    pub edge_dim_on: Vec<u8>,
    pub activate: Activate,
    pub pager: Pager,
    pub color: Color,
    pub stream_enabled: bool,
    pub stream_batch_size: BatchSize,
    pub debug_force_screen_height: Option<usize>,
    /// Template bodies keyed by template name.
    pub templates: ByteMap<String>,
    pub hydra_enable: bool,
    pub hydra_top_stack_padding: bool,
    pub hydra_colors: HydraColors,
    pub hydra_color_bookmarks: bool,
    pub hydra_prefixes: HydraPrefixes,
    pub hydra_prefixes_replace: HydraPrefixReplace,
}

pub struct ConfigView {
    pub dash: Seq<char>,
    pub dash_start: Seq<char>,
    pub dash_end: Seq<char>,
    pub graph_horizontal: Seq<char>,
    pub graph_vertical: Seq<char>,
    pub graph_top_left: Seq<char>,
    pub graph_top_right: Seq<char>,
    pub graph_bottom_left: Seq<char>,
    pub graph_bottom_right: Seq<char>,
    pub graph_tee_right: Seq<char>,
    pub graph_tee_left: Seq<char>,
    pub graph_tee_down: Seq<char>,
    pub graph_tee_up: Seq<char>,
    pub graph_cross: Seq<char>,
    pub graph_elision: Seq<char>,
    pub graph_collapse: bool,
    pub dim_on: Seq<u8>,
    pub edge_dim_on: Seq<u8>,
    pub activate: Activate,
    pub pager: Pager,
    pub color: Color,
    pub stream_enabled: bool,
    pub stream_batch_size: BatchSize,
    pub debug_force_screen_height: Option<usize>,
    pub templates: Map<Seq<u8>, Seq<char>>,
    pub hydra_enable: bool,
    pub hydra_top_stack_padding: bool,
    pub hydra_colors: HydraColorsView,
    pub hydra_color_bookmarks: bool,
    pub hydra_prefixes: HydraPrefixesView,
    pub hydra_prefixes_replace: HydraPrefixReplaceView,
}

impl View for Config {
    type V = ConfigView;

    open spec fn view(&self) -> ConfigView {
        ConfigView {
            dash: self.dash@,
            dash_start: self.dash_start@,
            dash_end: self.dash_end@,
            graph_horizontal: self.graph_horizontal@,
            graph_vertical: self.graph_vertical@,
            graph_top_left: self.graph_top_left@,
            graph_top_right: self.graph_top_right@,
            graph_bottom_left: self.graph_bottom_left@,
            graph_bottom_right: self.graph_bottom_right@,
            graph_tee_right: self.graph_tee_right@,
            graph_tee_left: self.graph_tee_left@,
            graph_tee_down: self.graph_tee_down@,
            graph_tee_up: self.graph_tee_up@,
            graph_cross: self.graph_cross@,
            graph_elision: self.graph_elision@,
            graph_collapse: self.graph_collapse,
            dim_on: self.dim_on@,
            edge_dim_on: self.edge_dim_on@,
            activate: self.activate,
            pager: self.pager,
            color: self.color,
            stream_enabled: self.stream_enabled,
            stream_batch_size: self.stream_batch_size,
            debug_force_screen_height: self.debug_force_screen_height,
            templates: self.templates@.map_values(|s: String| s@),
            hydra_enable: self.hydra_enable,
            hydra_top_stack_padding: self.hydra_top_stack_padding,
            hydra_colors: self.hydra_colors@,
            hydra_color_bookmarks: self.hydra_color_bookmarks,
            hydra_prefixes: self.hydra_prefixes@,
            hydra_prefixes_replace: self.hydra_prefixes_replace@,
        }
    }
}

pub open spec fn default_prefixes() -> HydraPrefixesView {
    HydraPrefixesView {
        prefix: DEFAULT_HYDRA_PREFIX@,
        base: DEFAULT_HYDRA_BASE@,
        head: DEFAULT_HYDRA_HEAD@,
        conflict_resolution: DEFAULT_HYDRA_CONFLICT_RESOLUTION@,
        stack_head: DEFAULT_HYDRA_STACK_HEAD@,
        stack_working_copy: DEFAULT_HYDRA_STACK_WORKING_COPY@,
    }
}

impl Default for HydraPrefixes {
    /// The stock naming: `HY` leader, `B`/`H`/`CR` anchors, `S`/`WC` stacks.
    fn default() -> (r: Self)
        ensures
            r@ == default_prefixes(),
    {
        HydraPrefixes {
            prefix: String::from_str(DEFAULT_HYDRA_PREFIX),
            base: String::from_str(DEFAULT_HYDRA_BASE),
            head: String::from_str(DEFAULT_HYDRA_HEAD),
            conflict_resolution: String::from_str(DEFAULT_HYDRA_CONFLICT_RESOLUTION),
            stack_head: String::from_str(DEFAULT_HYDRA_STACK_HEAD),
            stack_working_copy: String::from_str(DEFAULT_HYDRA_STACK_WORKING_COPY),
        }
    }
}


// ---------------------------------------------------------------------------
// Text helpers

/// True when `a` and `b` are the same text.
pub fn str_is(a: &str, b: &str) -> (r: bool)
    ensures
        r == (a@ == b@),
{
    let r = crate::map::bytes_eq(a.as_bytes(), b.as_bytes());
    proof {
        vstd::utf8::encode_utf8_decode_utf8(a@);
        vstd::utf8::encode_utf8_decode_utf8(b@);
    }
    r
}

/// `s` with `p` taken off its front, when it starts with `p`.
pub open spec fn strip_prefix_of(s: Seq<char>, p: Seq<char>) -> Option<Seq<char>> {
    if p.len() <= s.len() && s.subrange(0, p.len() as int) == p {
        Some(s.subrange(p.len() as int, s.len() as int))
    } else {
        None
    }
}

/// `str::strip_prefix`.
pub fn strip_prefix<'a>(s: &'a str, p: &str) -> (r: Option<&'a str>)
    ensures
        match r {
            Some(t) => strip_prefix_of(s@, p@) == Some(t@),
            None => strip_prefix_of(s@, p@) is None,
        },
{
    let n = s.unicode_len();
    let m = p.unicode_len();
    if m > n {
        return None;
    }
    let mut i: usize = 0;
    while i < m
        invariant
            i <= m,
            m <= n,
            n == s@.len(),
            m == p@.len(),
            forall|k: int| 0 <= k < i ==> s@[k] == p@[k],
        decreases m - i,
    {
        if s.get_char(i) != p.get_char(i) {
            assert(s@.subrange(0, m as int)[i as int] != p@[i as int]);
            return None;
        }
        i = i + 1;
    }
    assert(s@.subrange(0, m as int) =~= p@);
    Some(s.substring_char(m, n))
}

/// Index of the first `c` in `s`.
pub open spec fn char_index(s: Seq<char>, c: char, j: int) -> Option<int>
    decreases s.len() - j,
{
    if j < 0 || j >= s.len() {
        None
    } else if s[j] == c {
        Some(j)
    } else {
        char_index(s, c, j + 1)
    }
}

/// `str::split_once` on one character.
pub open spec fn split_once_of(s: Seq<char>, c: char) -> Option<(Seq<char>, Seq<char>)> {
    match char_index(s, c, 0) {
        Some(i) => if 0 <= i < s.len() {
            Some((s.subrange(0, i), s.subrange(i + 1, s.len() as int)))
        } else {
            None
        },
        None => None,
    }
}

/// `str::split_once` on one character.
pub fn split_once<'a>(s: &'a str, c: char) -> (r: Option<(&'a str, &'a str)>)
    ensures
        match r {
            Some((a, b)) => split_once_of(s@, c) == Some((a@, b@)),
            None => split_once_of(s@, c) is None,
        },
{
    let n = s.unicode_len();
    let mut i: usize = 0;
    while i < n
        invariant
            i <= n,
            n == s@.len(),
            char_index(s@, c, i as int) == char_index(s@, c, 0),
        decreases n - i,
    {
        if s.get_char(i) == c {
            return Some((s.substring_char(0, i), s.substring_char(i + 1, n)));
        }
        i = i + 1;
    }
    None
}

/// `s` with every non-overlapping `__` (left to right) replaced by `.`.
pub open spec fn dots_for_double_underscores(s: Seq<char>) -> Seq<char>
    decreases s.len(),
{
    if s.len() >= 2 && s[0] == '_' && s[1] == '_' {
        seq!['.'] + dots_for_double_underscores(s.subrange(2, s.len() as int))
    } else if s.len() >= 1 {
        seq![s[0]] + dots_for_double_underscores(s.subrange(1, s.len() as int))
    } else {
        Seq::empty()
    }
}

/// `s` with every `_` replaced by `-`.
pub open spec fn hyphens_for_underscores(s: Seq<char>) -> Seq<char> {
    Seq::new(s.len(), |i: int| if s[i] == '_' { '-' } else { s[i] })
}

/// `s.replace("__", ".")`.
pub fn replace_double_underscores(s: &str) -> (r: String)
    ensures
        r@ == dots_for_double_underscores(s@),
{
    let n = s.unicode_len();
    let mut out = String::from_str("");
    let mut i: usize = 0;
    proof {
        reveal_strlit("");
        assert(s@.subrange(0, n as int) =~= s@);
        assert(out@ + dots_for_double_underscores(s@) =~= dots_for_double_underscores(s@));
    }
    while i < n
        invariant
            i <= n,
            n == s@.len(),
            out@ + dots_for_double_underscores(s@.subrange(i as int, n as int)) == dots_for_double_underscores(s@),
        decreases n - i,
    {
        let ghost rest = s@.subrange(i as int, n as int);
        if n - i >= 2 && s.get_char(i) == '_' && s.get_char(i + 1) == '_' {
            out.append(".");
            assert(rest.subrange(2, rest.len() as int) =~= s@.subrange(i + 2, n as int));
            i = i + 2;
        } else {
            out.append(s.substring_char(i, i + 1));
            assert(rest.subrange(1, rest.len() as int) =~= s@.subrange(i + 1, n as int));
            i = i + 1;
        }
        assert(out@ + dots_for_double_underscores(s@.subrange(i as int, n as int)) =~= dots_for_double_underscores(s@)) by {
            assert(".".view() =~= seq!['.']) by { reveal_strlit("."); }
        }
    }
    assert(s@.subrange(n as int, n as int) =~= Seq::<char>::empty());
    assert(out@ =~= dots_for_double_underscores(s@));
    out
}

/// `s.replace('_', "-")`.
pub fn replace_underscores(s: &str) -> (r: String)
    ensures
        r@ == hyphens_for_underscores(s@),
{
    let n = s.unicode_len();
    let mut out = String::from_str("");
    let mut i: usize = 0;
    proof { reveal_strlit(""); }
    while i < n
        invariant
            i <= n,
            n == s@.len(),
            out@ == hyphens_for_underscores(s@).subrange(0, i as int),
        decreases n - i,
    {
        if s.get_char(i) == '_' {
            out.append("-");
            proof { reveal_strlit("-"); }
        } else {
            out.append(s.substring_char(i, i + 1));
        }
        i = i + 1;
        assert(out@ =~= hyphens_for_underscores(s@).subrange(0, i as int));
    }
    assert(out@ =~= hyphens_for_underscores(s@));
    out
}

/// `str::to_lowercase`: Unicode lowercase mapping of the text.
pub uninterp spec fn lowercase(s: Seq<char>) -> Seq<char>;

/// `str::to_lowercase`: the result is a function of the text alone (Rust's
/// lowercase mapping is Unicode's, independent of locale); its contents are
/// not spelled out here.
#[verifier::external_body]
fn to_lowercase(s: &str) -> (r: String)
    ensures
        r@ == lowercase(s@),
{
    s.to_lowercase()
}

/// Environment-variable names: `__` separates config path segments (`.`),
/// a single `_` stands for `-`, and the name is lowercased.
pub fn env_key_to_config_key(name: &str) -> (r: String)
    ensures
        r@ == lowercase(hyphens_for_underscores(dots_for_double_underscores(name@))),
{
    let a = replace_double_underscores(name);
    let b = replace_underscores(a.as_str());
    to_lowercase(b.as_str())
}


// ---------------------------------------------------------------------------
// Values

/// Why a configuration value was refused; each carries the offending text
/// or number.
#[derive(Debug)]
pub enum ValueError {
    /// Not `auto`, `always` or `never`.
    ExpectedMode(Vec<u8>),
    /// Not `true` or `false`.
    ExpectedBool(Vec<u8>),
    /// Not an integer, nor `half-pager`.
    ExpectedBatchSize(Vec<u8>),
    /// An integer below 1 where at least 1 is needed.
    BelowOne(i64),
    /// Not an integer where a positive one is needed.
    ExpectedPositive(Vec<u8>),
    /// `#` not followed by six bytes.
    ExpectedHexColor(Vec<u8>),
    /// `#rrggbb` with a part that is not hexadecimal.
    BadHex(Vec<u8>),
    /// A colour number outside 0-255.
    ColorOutOfRange(i64),
    /// Neither a colour number nor `#rrggbb`.
    ExpectedColor(Vec<u8>),
    /// A palette with an empty entry; the whole palette.
    EmptyPaletteEntry(Vec<u8>),
    /// A `templates.` key whose name is empty or dotted; the whole key.
    TemplateNameNotFlat(Vec<u8>),
}

pub enum ValueErrorView {
    ExpectedMode(Seq<u8>),
    ExpectedBool(Seq<u8>),
    ExpectedBatchSize(Seq<u8>),
    BelowOne(i64),
    ExpectedPositive(Seq<u8>),
    ExpectedHexColor(Seq<u8>),
    BadHex(Seq<u8>),
    ColorOutOfRange(i64),
    ExpectedColor(Seq<u8>),
    EmptyPaletteEntry(Seq<u8>),
    TemplateNameNotFlat(Seq<u8>),
}

impl View for ValueError {
    type V = ValueErrorView;

    open spec fn view(&self) -> ValueErrorView {
        match self {
            ValueError::ExpectedMode(v) => ValueErrorView::ExpectedMode(v@),
            ValueError::ExpectedBool(v) => ValueErrorView::ExpectedBool(v@),
            ValueError::ExpectedBatchSize(v) => ValueErrorView::ExpectedBatchSize(v@),
            ValueError::BelowOne(n) => ValueErrorView::BelowOne(*n),
            ValueError::ExpectedPositive(v) => ValueErrorView::ExpectedPositive(v@),
            ValueError::ExpectedHexColor(v) => ValueErrorView::ExpectedHexColor(v@),
            ValueError::BadHex(v) => ValueErrorView::BadHex(v@),
            ValueError::ColorOutOfRange(n) => ValueErrorView::ColorOutOfRange(*n),
            ValueError::ExpectedColor(v) => ValueErrorView::ExpectedColor(v@),
            ValueError::EmptyPaletteEntry(v) => ValueErrorView::EmptyPaletteEntry(v@),
            ValueError::TemplateNameNotFlat(v) => ValueErrorView::TemplateNameNotFlat(v@),
        }
    }
}

pub open spec fn activate_text(v: Seq<char>) -> Option<Activate> {
    if v == "auto"@ {
        Some(Activate::Auto)
    } else if v == "always"@ {
        Some(Activate::Always)
    } else if v == "never"@ {
        Some(Activate::Never)
    } else {
        None
    }
}

pub open spec fn pager_text(v: Seq<char>) -> Option<Pager> {
    if v == "auto"@ {
        Some(Pager::Auto)
    } else if v == "always"@ {
        Some(Pager::Always)
    } else if v == "never"@ {
        Some(Pager::Never)
    } else {
        None
    }
}

pub open spec fn color_text(v: Seq<char>) -> Option<Color> {
    if v == "auto"@ {
        Some(Color::Auto)
    } else if v == "always"@ {
        Some(Color::Always)
    } else if v == "never"@ {
        Some(Color::Never)
    } else {
        None
    }
}

pub open spec fn bool_text(v: Seq<char>) -> Option<bool> {
    if v == "true"@ {
        Some(true)
    } else if v == "false"@ {
        Some(false)
    } else {
        None
    }
}

/// `activate`: `auto`, `always` or `never`.
pub fn parse_activate(s: &str) -> (r: Result<Activate, ValueError>)
    ensures
        match r {
            Ok(a) => activate_text(s@) == Some(a),
            Err(e) => activate_text(s@) is None && e@ == ValueErrorView::ExpectedMode(s.spec_bytes()),
        },
{
    if str_is(s, "auto") {
        Ok(Activate::Auto)
    } else if str_is(s, "always") {
        Ok(Activate::Always)
    } else if str_is(s, "never") {
        Ok(Activate::Never)
    } else {
        Err(ValueError::ExpectedMode(copy_bytes(s.as_bytes())))
    }
}

/// `pager`: `auto`, `always` or `never`.
pub fn parse_pager(s: &str) -> (r: Result<Pager, ValueError>)
    ensures
        match r {
            Ok(a) => pager_text(s@) == Some(a),
            Err(e) => pager_text(s@) is None && e@ == ValueErrorView::ExpectedMode(s.spec_bytes()),
        },
{
    if str_is(s, "auto") {
        Ok(Pager::Auto)
    } else if str_is(s, "always") {
        Ok(Pager::Always)
    } else if str_is(s, "never") {
        Ok(Pager::Never)
    } else {
        Err(ValueError::ExpectedMode(copy_bytes(s.as_bytes())))
    }
}

/// `ui.color`: `auto`, `always` or `never`.
pub fn parse_color(s: &str) -> (r: Result<Color, ValueError>)
    ensures
        match r {
            Ok(a) => color_text(s@) == Some(a),
            Err(e) => color_text(s@) is None && e@ == ValueErrorView::ExpectedMode(s.spec_bytes()),
        },
{
    if str_is(s, "auto") {
        Ok(Color::Auto)
    } else if str_is(s, "always") {
        Ok(Color::Always)
    } else if str_is(s, "never") {
        Ok(Color::Never)
    } else {
        Err(ValueError::ExpectedMode(copy_bytes(s.as_bytes())))
    }
}

/// `true` or `false`.
pub fn parse_bool_str(s: &str) -> (r: Result<bool, ValueError>)
    ensures
        match r {
            Ok(b) => bool_text(s@) == Some(b),
            Err(e) => bool_text(s@) is None && e@ == ValueErrorView::ExpectedBool(s.spec_bytes()),
        },
{
    if str_is(s, "true") {
        Ok(true)
    } else if str_is(s, "false") {
        Ok(false)
    } else {
        Err(ValueError::ExpectedBool(copy_bytes(s.as_bytes())))
    }
}

/// `stream.batch-size`: `half-pager`, or an integer of at least 1.
pub open spec fn batch_of(v: Seq<char>, vb: Seq<u8>) -> Result<BatchSize, ValueErrorView> {
    if v == "half-pager"@ {
        Ok(BatchSize::HalfPager)
    } else {
        match i64_text(vb) {
            None => Err(ValueErrorView::ExpectedBatchSize(vb)),
            Some(n) => if n < 1 {
                Err(ValueErrorView::BelowOne(n as i64))
            } else {
                Ok(BatchSize::Fixed(n as usize))
            },
        }
    }
}

pub fn parse_batch_size(s: &str) -> (r: Result<BatchSize, ValueError>)
    ensures
        match r {
            Ok(b) => batch_of(s@, s.spec_bytes()) == Ok::<BatchSize, ValueErrorView>(b),
            Err(e) => batch_of(s@, s.spec_bytes()) == Err::<BatchSize, ValueErrorView>(e@),
        },
{
    if str_is(s, "half-pager") {
        return Ok(BatchSize::HalfPager);
    }
    match parse_i64(s.as_bytes()) {
        None => Err(ValueError::ExpectedBatchSize(copy_bytes(s.as_bytes()))),
        Some(n) => if n < 1 {
            Err(ValueError::BelowOne(n))
        } else {
            Ok(BatchSize::Fixed(n as usize))
        },
    }
}

/// `debug.force-screen-height`: an integer of at least 1.
pub open spec fn height_of(vb: Seq<u8>) -> Result<usize, ValueErrorView> {
    match i64_text(vb) {
        None => Err(ValueErrorView::ExpectedPositive(vb)),
        Some(n) => if n < 1 { Err(ValueErrorView::BelowOne(n as i64)) } else { Ok(n as usize) },
    }
}

pub fn parse_screen_height(s: &[u8]) -> (r: Result<usize, ValueError>)
    ensures
        match r {
            Ok(h) => height_of(s@) == Ok::<usize, ValueErrorView>(h),
            Err(e) => height_of(s@) == Err::<usize, ValueErrorView>(e@),
        },
{
    match parse_i64(s) {
        None => Err(ValueError::ExpectedPositive(copy_bytes(s))),
        Some(n) => if n < 1 {
            Err(ValueError::BelowOne(n))
        } else {
            Ok(n as usize)
        },
    }
}

pub open spec fn hex_digit(b: u8) -> Option<int> {
    if 48 <= b <= 57 {
        Some(b - 48)
    } else if 97 <= b <= 102 {
        Some(b - 87)
    } else if 65 <= b <= 70 {
        Some(b - 55)
    } else {
        None
    }
}

/// `u8::from_str_radix(_, 16)` on two bytes: two hex digits, or `+` and one.
pub open spec fn hex_byte(b: Seq<u8>) -> Option<int> {
    if b.len() != 2 {
        None
    } else if b[0] == 43 {
        hex_digit(b[1])
    } else {
        match (hex_digit(b[0]), hex_digit(b[1])) {
            (Some(x), Some(y)) => Some(16 * x + y),
            _ => None,
        }
    }
}

/// Inside a multi-byte UTF-8 character (not a place a `str` can be cut).
pub open spec fn continuation(b: u8) -> bool {
    0x80 <= b < 0xc0
}

/// `#` and six bytes read pair by pair, a pair cut out only once the one
/// before it read as hex: the first cut splits a character when byte 3 is
/// inside one, the second when byte 5 is, which panics.
pub open spec fn color_panics(b: Seq<u8>) -> bool {
    b.len() == 7 && b[0] == 35 && (continuation(b[3]) || (hex_byte(b.subrange(1, 3)) is Some && continuation(b[5])))
}

/// `ESC [ 38 ; 2 ; r ; g ; b m`.
pub open spec fn truecolor(r: int, g: int, b: int) -> Seq<u8> {
    seq![27u8, 91u8, 51u8, 56u8, 59u8, 50u8, 59u8] + decimal(r as nat) + seq![59u8] + decimal(g as nat)
        + seq![59u8] + decimal(b as nat) + seq![109u8]
}

/// `ESC [ 38 ; 5 ; n m`.
pub open spec fn color256(n: int) -> Seq<u8> {
    seq![27u8, 91u8, 51u8, 56u8, 59u8, 53u8, 59u8] + decimal(n as nat) + seq![109u8]
}

/// A colour: a 256-colour number (0-255) or `#rrggbb`, as the SGR that
/// sets it as the foreground.
pub open spec fn color_of(b: Seq<u8>) -> Result<Seq<u8>, ValueErrorView> {
    if b.len() > 0 && b[0] == 35 {
        if b.len() != 7 {
            Err(ValueErrorView::ExpectedHexColor(b))
        } else {
            match (hex_byte(b.subrange(1, 3)), hex_byte(b.subrange(3, 5)), hex_byte(b.subrange(5, 7))) {
                (Some(r), Some(g), Some(x)) => Ok(truecolor(r, g, x)),
                _ => Err(ValueErrorView::BadHex(b)),
            }
        }
    } else {
        match i64_text(b) {
            Some(n) => if 0 <= n <= 255 {
                Ok(color256(n))
            } else {
                Err(ValueErrorView::ColorOutOfRange(n as i64))
            },
            None => Err(ValueErrorView::ExpectedColor(b)),
        }
    }
}

fn hex_digit_exec(b: u8) -> (r: Option<u8>)
    ensures
        match r {
            Some(d) => hex_digit(b) == Some(d as int) && d < 16,
            None => hex_digit(b) is None,
        },
{
    if 48 <= b && b <= 57 {
        Some(b - 48)
    } else if 97 <= b && b <= 102 {
        Some(b - 87)
    } else if 65 <= b && b <= 70 {
        Some(b - 55)
    } else {
        None
    }
}

fn hex_byte_exec(b: &[u8]) -> (r: Option<u8>)
    requires
        b@.len() == 2,
    ensures
        match r {
            Some(v) => hex_byte(b@) == Some(v as int),
            None => hex_byte(b@) is None,
        },
{
    if b[0] == 43 {
        hex_digit_exec(b[1])
    } else {
        match (hex_digit_exec(b[0]), hex_digit_exec(b[1])) {
            (Some(x), Some(y)) => Some(16 * x + y),
            _ => None,
        }
    }
}

/// A colour value (see `color_of`).
pub fn parse_color_bytes(s: &[u8]) -> (r: Result<Vec<u8>, ValueError>)
    requires
        !color_panics(s@),
    ensures
        match r {
            Ok(v) => color_of(s@) == Ok::<Seq<u8>, ValueErrorView>(v@),
            Err(e) => color_of(s@) == Err::<Seq<u8>, ValueErrorView>(e@),
        },
{
    if s.len() > 0 && s[0] == 35 {
        if s.len() != 7 {
            return Err(ValueError::ExpectedHexColor(copy_bytes(s)));
        }
        let r = hex_byte_exec(&s[1..3]);
        let g = hex_byte_exec(&s[3..5]);
        let b = hex_byte_exec(&s[5..7]);
        match (r, g, b) {
            (Some(r), Some(g), Some(b)) => {
                let mut out: Vec<u8> = Vec::new();
                out.push(27);
                out.push(91);
                out.push(51);
                out.push(56);
                out.push(59);
                out.push(50);
                out.push(59);
                push_decimal(&mut out, r as u64);
                out.push(59);
                push_decimal(&mut out, g as u64);
                out.push(59);
                push_decimal(&mut out, b as u64);
                out.push(109);
                assert(out@ =~= truecolor(r as int, g as int, b as int));
                Ok(out)
            },
            _ => Err(ValueError::BadHex(copy_bytes(s))),
        }
    } else {
        match parse_i64(s) {
            Some(n) => if 0 <= n && n <= 255 {
                let mut out: Vec<u8> = Vec::new();
                out.push(27);
                out.push(91);
                out.push(51);
                out.push(56);
                out.push(59);
                out.push(53);
                out.push(59);
                push_decimal(&mut out, n as u64);
                out.push(109);
                assert(out@ =~= color256(n as int));
                Ok(out)
            } else {
                Err(ValueError::ColorOutOfRange(n))
            },
            None => Err(ValueError::ExpectedColor(copy_bytes(s))),
        }
    }
}

/// A colour value given as text (see `color_of`).
pub fn parse_color_str(s: &str) -> (r: Result<Vec<u8>, ValueError>)
    requires
        !color_panics(s.spec_bytes()),
    ensures
        match r {
            Ok(v) => color_of(s.spec_bytes()) == Ok::<Seq<u8>, ValueErrorView>(v@),
            Err(e) => color_of(s.spec_bytes()) == Err::<Seq<u8>, ValueErrorView>(e@),
        },
{
    parse_color_bytes(s.as_bytes())
}


/// The pieces of `s[i..]` between commas.
pub open spec fn comma_parts_from(s: Seq<u8>, i: int) -> Seq<Seq<u8>>
    decreases s.len() - i,
{
    if i < 0 || i > s.len() {
        Seq::empty()
    } else {
        match crate::dsl::find_byte(s, 44, i) {
            Some(e) => if i <= e < s.len() {
                seq![s.subrange(i, e)] + comma_parts_from(s, e + 1)
            } else {
                Seq::empty()
            },
            None => seq![s.subrange(i, s.len() as int)],
        }
    }
}

/// The palette the first `k` comma-separated entries make (each trimmed);
/// an empty entry, or one that is no colour, fails it.
pub open spec fn palette_from(parts: Seq<Seq<u8>>, k: int, whole: Seq<u8>) -> Result<Seq<Seq<u8>>, ValueErrorView>
    decreases k,
{
    if k <= 0 {
        Ok(Seq::empty())
    } else {
        match palette_from(parts, k - 1, whole) {
            Err(e) => Err(e),
            Ok(p) => {
                let part = trimmed(parts[k - 1]);
                if part.len() == 0 {
                    Err(ValueErrorView::EmptyPaletteEntry(whole))
                } else {
                    match color_of(part) {
                        Ok(c) => Ok(p.push(c)),
                        Err(e) => Err(e),
                    }
                }
            },
        }
    }
}

/// Reading the first `k` entries reaches one whose colour parse panics.
pub open spec fn palette_panics(parts: Seq<Seq<u8>>, k: int, whole: Seq<u8>) -> bool
    decreases k,
{
    if k <= 0 {
        false
    } else {
        palette_panics(parts, k - 1, whole) || (palette_from(parts, k - 1, whole) is Ok && trimmed(
            parts[k - 1],
        ).len() > 0 && color_panics(trimmed(parts[k - 1])))
    }
}

/// `hydra.colors`: `true` hashes names into colours, `false` turns stack
/// colours off, anything else is a comma-separated palette.
pub open spec fn hydra_colors_of(v: Seq<char>, vb: Seq<u8>) -> Result<HydraColorsView, ValueErrorView> {
    if v == "true"@ {
        Ok(HydraColorsView::Hash)
    } else if v == "false"@ {
        Ok(HydraColorsView::Off)
    } else {
        let parts = comma_parts_from(vb, 0);
        match palette_from(parts, parts.len() as int, vb) {
            Ok(p) => Ok(HydraColorsView::Palette(p)),
            Err(e) => Err(e),
        }
    }
}

pub open spec fn hydra_colors_panic(v: Seq<char>, vb: Seq<u8>) -> bool {
    v != "true"@ && v != "false"@ && palette_panics(comma_parts_from(vb, 0), comma_parts_from(vb, 0).len() as int, vb)
}

proof fn lemma_palette_panics_mono(parts: Seq<Seq<u8>>, j: int, k: int, whole: Seq<u8>)
    requires
        0 <= j <= k,
        palette_panics(parts, j, whole),
    ensures
        palette_panics(parts, k, whole),
    decreases k,
{
    if j < k {
        lemma_palette_panics_mono(parts, j, k - 1, whole);
    }
}

proof fn lemma_palette_err_mono(parts: Seq<Seq<u8>>, j: int, k: int, whole: Seq<u8>)
    requires
        0 <= j <= k,
        palette_from(parts, j, whole) is Err,
    ensures
        palette_from(parts, k, whole) == palette_from(parts, j, whole),
    decreases k,
{
    if j < k {
        lemma_palette_err_mono(parts, j, k - 1, whole);
    }
}

/// `hydra.colors` (see `hydra_colors_of`).
pub fn parse_hydra_colors(s: &str) -> (r: Result<HydraColors, ValueError>)
    requires
        !hydra_colors_panic(s@, s.spec_bytes()),
    ensures
        match r {
            Ok(h) => hydra_colors_of(s@, s.spec_bytes()) == Ok::<HydraColorsView, ValueErrorView>(h@),
            Err(e) => hydra_colors_of(s@, s.spec_bytes()) == Err::<HydraColorsView, ValueErrorView>(e@),
        },
{
    if str_is(s, "true") {
        return Ok(HydraColors::Hash);
    }
    if str_is(s, "false") {
        return Ok(HydraColors::Off);
    }
    let b = s.as_bytes();
    let ghost parts = comma_parts_from(b@, 0);
    let n = b.len();
    let mut palette: Vec<Vec<u8>> = Vec::new();
    let mut i: usize = 0;
    let ghost mut k: int = 0;
    let mut more = true;
    assert(parts.subrange(0, parts.len() as int) =~= parts);
    assert(Seq::new(palette@.len(), |t: int| palette@[t]@) =~= Seq::<Seq<u8>>::empty());
    while more
        invariant
            n == b@.len(),
            b@ == s.spec_bytes(),
            s@ != "true"@,
            s@ != "false"@,
            parts == comma_parts_from(b@, 0),
            !palette_panics(parts, parts.len() as int, b@),
            i <= n,
            0 <= k <= parts.len(),
            more ==> parts.subrange(k, parts.len() as int) == comma_parts_from(b@, i as int),
            !more ==> k == parts.len(),
            palette_from(parts, k, b@) == Ok::<Seq<Seq<u8>>, ValueErrorView>(Seq::new(palette@.len(), |t: int| palette@[t]@)),
        decreases n - i, (if more { 1int } else { 0int }),
    {
        let ghost i0 = i as int;
        let ghost rest = comma_parts_from(b@, i0);
        let e = crate::dsl::find_byte_exec(b, 44, i);
        let part = trim_bytes(&b[i..e]);
        proof {
            assert(rest.len() > 0);
            assert(parts[k] == rest[0]) by {
                assert(parts.subrange(k, parts.len() as int)[0] == parts[k]);
            }
            assert(rest[0] == b@.subrange(i0, e as int));
            if palette_panics(parts, k + 1, b@) {
                lemma_palette_panics_mono(parts, k + 1, parts.len() as int, b@);
            }
        }
        if part.len() == 0 {
            proof {
                assert(palette_from(parts, k + 1, b@) == Err::<Seq<Seq<u8>>, ValueErrorView>(
                    ValueErrorView::EmptyPaletteEntry(b@),
                ));
                lemma_palette_err_mono(parts, k + 1, parts.len() as int, b@);
            }
            return Err(ValueError::EmptyPaletteEntry(copy_bytes(b)));
        }
        match parse_color_bytes(part) {
            Ok(c) => {
                let ghost pv = Seq::new(palette@.len(), |t: int| palette@[t]@);
                palette.push(c);
                assert(Seq::new(palette@.len(), |t: int| palette@[t]@) =~= pv.push(palette@.last()@));
            },
            Err(err) => {
                proof {
                    assert(palette_from(parts, k + 1, b@) == Err::<Seq<Seq<u8>>, ValueErrorView>(err@));
                    lemma_palette_err_mono(parts, k + 1, parts.len() as int, b@);
                }
                return Err(err);
            },
        }
        proof { k = k + 1; }
        if e == n {
            more = false;
            assert(rest =~= seq![b@.subrange(i0, n as int)]);
            assert(parts.subrange(k - 1, parts.len() as int).len() == 1);
        } else {
            i = e + 1;
            assert(parts.subrange(k, parts.len() as int) =~= parts.subrange(k - 1, parts.len() as int).drop_first());
            assert(rest.drop_first() =~= comma_parts_from(b@, i as int));
        }
    }
    let r = HydraColors::Palette(palette);
    assert(r@ == HydraColorsView::Palette(Seq::new(palette@.len(), |t: int| palette@[t]@)));
    Ok(r)
}

/// Whether reading this colour would cut it inside a character (see
/// `color_panics`).
pub fn color_panics_check(b: &[u8]) -> (r: bool)
    ensures
        r == color_panics(b@),
{
    if !(b.len() == 7 && b[0] == 35) {
        return false;
    }
    if 0x80 <= b[3] && b[3] < 0xc0 {
        return true;
    }
    hex_byte_exec(&b[1..3]).is_some() && 0x80 <= b[5] && b[5] < 0xc0
}

/// Whether reading `s` as `hydra.colors` would cut a palette colour inside a
/// character (see `hydra_colors_panic`).
pub fn hydra_colors_panic_check(s: &str) -> (r: bool)
    ensures
        r == hydra_colors_panic(s@, s.spec_bytes()),
{
    if str_is(s, "true") || str_is(s, "false") {
        return false;
    }
    let b = s.as_bytes();
    let ghost parts = comma_parts_from(b@, 0);
    let n = b.len();
    let mut i: usize = 0;
    let ghost mut k: int = 0;
    let mut more = true;
    assert(parts.subrange(0, parts.len() as int) =~= parts);
    while more
        invariant
            n == b@.len(),
            b@ == s.spec_bytes(),
            s@ != "true"@,
            s@ != "false"@,
            parts == comma_parts_from(b@, 0),
            i <= n,
            0 <= k <= parts.len(),
            more ==> parts.subrange(k, parts.len() as int) == comma_parts_from(b@, i as int),
            !more ==> k == parts.len(),
            palette_from(parts, k, b@) is Ok,
            !palette_panics(parts, k, b@),
        decreases n - i, (if more { 1int } else { 0int }),
    {
        let ghost i0 = i as int;
        let ghost rest = comma_parts_from(b@, i0);
        let e = crate::dsl::find_byte_exec(b, 44, i);
        let part = trim_bytes(&b[i..e]);
        proof {
            assert(rest.len() > 0);
            assert(parts[k] == rest[0]) by {
                assert(parts.subrange(k, parts.len() as int)[0] == parts[k]);
            }
            assert(rest[0] == b@.subrange(i0, e as int));
        }
        if part.len() == 0 {
            proof {
                assert(palette_from(parts, k + 1, b@) is Err);
                assert(!palette_panics(parts, k + 1, b@));
                lemma_palette_err_no_panic(parts, k + 1, parts.len() as int, b@);
            }
            return false;
        }
        if color_panics_check(part) {
            assert(palette_panics(parts, k + 1, b@));
            proof { lemma_palette_panics_mono(parts, k + 1, parts.len() as int, b@); }
            return true;
        }
        match parse_color_bytes(part) {
            Ok(_) => {},
            Err(_) => {
                proof {
                    assert(palette_from(parts, k + 1, b@) is Err);
                    assert(!palette_panics(parts, k + 1, b@));
                    lemma_palette_err_no_panic(parts, k + 1, parts.len() as int, b@);
                }
                return false;
            },
        }
        proof { k = k + 1; }
        if e == n {
            more = false;
            assert(rest =~= seq![b@.subrange(i0, n as int)]);
            assert(parts.subrange(k - 1, parts.len() as int).len() == 1);
        } else {
            i = e + 1;
            assert(parts.subrange(k, parts.len() as int) =~= parts.subrange(k - 1, parts.len() as int).drop_first());
            assert(rest.drop_first() =~= comma_parts_from(b@, i as int));
        }
    }
    false
}

/// Past an entry the palette refuses, no later entry is read.
proof fn lemma_palette_err_no_panic(parts: Seq<Seq<u8>>, j: int, k: int, whole: Seq<u8>)
    requires
        0 <= j <= k,
        palette_from(parts, j, whole) is Err,
        !palette_panics(parts, j, whole),
    ensures
        !palette_panics(parts, k, whole),
    decreases k,
{
    if j < k {
        lemma_palette_err_no_panic(parts, j, k - 1, whole);
        lemma_palette_err_mono(parts, j, k - 1, whole);
    }
}

/// Whether setting `key` to `value` would cut a colour inside a character
/// (see `kv_panics`).
pub fn kv_panics_check(key: &str, value: &str) -> (r: bool)
    ensures
        r == kv_panics(key@, value@),
{
    proof {
        reveal_strlit("colors.dash-filler");
        reveal_strlit("colors.graph-edge");
        reveal_strlit("hydra.colors");
    }
    let is_color = str_is(key, "colors.dash-filler") || str_is(key, "colors.graph-edge");
    let is_palette = str_is(key, "hydra.colors");
    assert("hydra.colors"@[0] != "colors.dash-filler"@[0]);
    assert("hydra.colors"@[0] != "colors.graph-edge"@[0]);
    if is_color {
        let vb = value.as_bytes();
        assert(vb@ == encode_utf8(value@));
        color_panics_check(vb)
    } else if is_palette {
        hydra_colors_panic_check(value)
    } else {
        false
    }
}


// ---------------------------------------------------------------------------
// Keys

/// Why a setting was refused.
#[derive(Debug)]
pub enum ConfigError {
    /// No such key; where it came from (`env`, `cli`, or nothing for the
    /// file) and the key.
    UnknownKey { src: Vec<u8>, key: Vec<u8> },
    /// The key's value was refused.
    BadValue { src: Vec<u8>, key: Vec<u8>, error: ValueError },
    /// A command-line argument that is no `--` flag.
    UnknownArgument(Vec<u8>),
    /// A `--key` flag without `=value`; the flag without its dashes.
    MissingValue(Vec<u8>),
    /// The configuration file is not TOML; the parser's message.
    Toml(Vec<u8>),
    /// A TOML date-time value, which no key takes; its key.
    Datetime(Vec<u8>),
    /// A TOML array holding more than scalars; its key.
    NonScalarArray(Vec<u8>),
}

impl Config {
    pub open spec fn wf(&self) -> bool {
        self.templates.wf()
    }
}

/// What setting `key` to `value` does: `None` for an unknown key, else the
/// new configuration or why the value was refused.
#[verifier::opaque]
pub open spec fn kv_spec(c: ConfigView, key: Seq<char>, value: Seq<char>) -> Option<Result<ConfigView, ValueErrorView>> {
    let vb = encode_utf8(value);
    if key == "activate"@ {
        Some(match activate_text(value) { Some(a) => Ok(ConfigView { activate: a, ..c }), None => Err(ValueErrorView::ExpectedMode(vb)) })
    } else if key == "pager"@ {
        Some(match pager_text(value) { Some(a) => Ok(ConfigView { pager: a, ..c }), None => Err(ValueErrorView::ExpectedMode(vb)) })
    } else if key == "ui.color"@ {
        Some(match color_text(value) { Some(a) => Ok(ConfigView { color: a, ..c }), None => Err(ValueErrorView::ExpectedMode(vb)) })
    } else if key == "graph.edges.chars.horizontal"@ {
        Some(Ok(ConfigView { graph_horizontal: value, ..c }))
    } else if key == "graph.edges.chars.vertical"@ {
        Some(Ok(ConfigView { graph_vertical: value, ..c }))
    } else if key == "graph.edges.chars.top-left"@ {
        Some(Ok(ConfigView { graph_top_left: value, ..c }))
    } else if key == "graph.edges.chars.top-right"@ {
        Some(Ok(ConfigView { graph_top_right: value, ..c }))
    } else if key == "graph.edges.chars.bottom-left"@ {
        Some(Ok(ConfigView { graph_bottom_left: value, ..c }))
    } else if key == "graph.edges.chars.bottom-right"@ {
        Some(Ok(ConfigView { graph_bottom_right: value, ..c }))
    } else if key == "graph.edges.chars.tee-right"@ {
        Some(Ok(ConfigView { graph_tee_right: value, ..c }))
    } else if key == "graph.edges.chars.tee-left"@ {
        Some(Ok(ConfigView { graph_tee_left: value, ..c }))
    } else if key == "graph.edges.chars.tee-down"@ {
        Some(Ok(ConfigView { graph_tee_down: value, ..c }))
    } else if key == "graph.edges.chars.tee-up"@ {
        Some(Ok(ConfigView { graph_tee_up: value, ..c }))
    } else if key == "graph.edges.chars.cross"@ {
        Some(Ok(ConfigView { graph_cross: value, ..c }))
    } else if key == "graph.edges.chars.elision"@ {
        Some(Ok(ConfigView { graph_elision: value, ..c }))
    } else if key == "graph.collapse"@ {
        Some(match bool_text(value) { Some(b) => Ok(ConfigView { graph_collapse: b, ..c }), None => Err(ValueErrorView::ExpectedBool(vb)) })
    } else if key == "layout.dash"@ {
        Some(Ok(ConfigView { dash: value, ..c }))
    } else if key == "layout.dash-start"@ {
        Some(Ok(ConfigView { dash_start: value, ..c }))
    } else if key == "layout.dash-end"@ {
        Some(Ok(ConfigView { dash_end: value, ..c }))
    } else if key == "stream.enabled"@ {
        Some(match bool_text(value) { Some(b) => Ok(ConfigView { stream_enabled: b, ..c }), None => Err(ValueErrorView::ExpectedBool(vb)) })
    } else if key == "stream.batch-size"@ {
        Some(match batch_of(value, vb) { Ok(b) => Ok(ConfigView { stream_batch_size: b, ..c }), Err(e) => Err(e) })
    } else if key == "colors.dash-filler"@ {
        Some(match color_of(vb) { Ok(b) => Ok(ConfigView { dim_on: b, ..c }), Err(e) => Err(e) })
    } else if key == "colors.graph-edge"@ {
        Some(match color_of(vb) { Ok(b) => Ok(ConfigView { edge_dim_on: b, ..c }), Err(e) => Err(e) })
    } else if key == "hydra.enable"@ {
        Some(match bool_text(value) { Some(b) => Ok(ConfigView { hydra_enable: b, ..c }), None => Err(ValueErrorView::ExpectedBool(vb)) })
    } else if key == "hydra.top-stack-padding"@ {
        Some(match bool_text(value) { Some(b) => Ok(ConfigView { hydra_top_stack_padding: b, ..c }), None => Err(ValueErrorView::ExpectedBool(vb)) })
    } else if key == "hydra.colors"@ {
        Some(match hydra_colors_of(value, vb) { Ok(h) => Ok(ConfigView { hydra_colors: h, ..c }), Err(e) => Err(e) })
    } else if key == "hydra.color-bookmarks"@ {
        Some(match bool_text(value) { Some(b) => Ok(ConfigView { hydra_color_bookmarks: b, ..c }), None => Err(ValueErrorView::ExpectedBool(vb)) })
    } else if key == "hydra.prefixes.prefix"@ {
        Some(Ok(ConfigView { hydra_prefixes: HydraPrefixesView { prefix: value, ..c.hydra_prefixes }, ..c }))
    } else if key == "hydra.prefixes.base"@ {
        Some(Ok(ConfigView { hydra_prefixes: HydraPrefixesView { base: value, ..c.hydra_prefixes }, ..c }))
    } else if key == "hydra.prefixes.head"@ {
        Some(Ok(ConfigView { hydra_prefixes: HydraPrefixesView { head: value, ..c.hydra_prefixes }, ..c }))
    } else if key == "hydra.prefixes.conflict-resolution"@ {
        Some(Ok(ConfigView { hydra_prefixes: HydraPrefixesView { conflict_resolution: value, ..c.hydra_prefixes }, ..c }))
    } else if key == "hydra.prefixes.stack-head"@ {
        Some(Ok(ConfigView { hydra_prefixes: HydraPrefixesView { stack_head: value, ..c.hydra_prefixes }, ..c }))
    } else if key == "hydra.prefixes.stack-working-copy"@ {
        Some(Ok(ConfigView { hydra_prefixes: HydraPrefixesView { stack_working_copy: value, ..c.hydra_prefixes }, ..c }))
    } else if key == "hydra.prefixes-replace.prefix"@ {
        Some(Ok(ConfigView { hydra_prefixes_replace: HydraPrefixReplaceView { prefix: Some(value), ..c.hydra_prefixes_replace }, ..c }))
    } else if key == "hydra.prefixes-replace.base"@ {
        Some(Ok(ConfigView { hydra_prefixes_replace: HydraPrefixReplaceView { base: Some(value), ..c.hydra_prefixes_replace }, ..c }))
    } else if key == "hydra.prefixes-replace.head"@ {
        Some(Ok(ConfigView { hydra_prefixes_replace: HydraPrefixReplaceView { head: Some(value), ..c.hydra_prefixes_replace }, ..c }))
    } else if key == "hydra.prefixes-replace.conflict-resolution"@ {
        Some(Ok(ConfigView { hydra_prefixes_replace: HydraPrefixReplaceView { conflict_resolution: Some(value), ..c.hydra_prefixes_replace }, ..c }))
    } else if key == "hydra.prefixes-replace.stack-head"@ {
        Some(Ok(ConfigView { hydra_prefixes_replace: HydraPrefixReplaceView { stack_head: Some(value), ..c.hydra_prefixes_replace }, ..c }))
    } else if key == "hydra.prefixes-replace.stack-working-copy"@ {
        Some(Ok(ConfigView { hydra_prefixes_replace: HydraPrefixReplaceView { stack_working_copy: Some(value), ..c.hydra_prefixes_replace }, ..c }))
    } else if key == "debug.force-screen-height"@ {
        Some(match height_of(vb) { Ok(h) => Ok(ConfigView { debug_force_screen_height: Some(h), ..c }), Err(e) => Err(e) })
    } else if strip_prefix_of(key, "templates."@) is Some {
        let name = strip_prefix_of(key, "templates."@)->0;
        if name.len() == 0 || name.contains('.') {
            Some(Err(ValueErrorView::TemplateNameNotFlat(encode_utf8(key))))
        } else {
            Some(Ok(ConfigView { templates: c.templates.insert(encode_utf8(name), value), ..c }))
        }
    } else {
        None
    }
}

/// Setting this key to this value would slice a colour inside a character,
/// which panics.
pub open spec fn kv_panics(key: Seq<char>, value: Seq<char>) -> bool {
    ||| ((key == "colors.dash-filler"@ || key == "colors.graph-edge"@) && color_panics(encode_utf8(value)))
    ||| (key == "hydra.colors"@ && hydra_colors_panic(value, encode_utf8(value)))
}

fn bad_value(src: &str, key: &str, e: ValueError) -> (r: ConfigError)
    ensures
        r matches ConfigError::BadValue { src: s, key: k, error: x } && s@ == src.spec_bytes() && k@
            == key.spec_bytes() && x == e,
{
    ConfigError::BadValue { src: copy_bytes(src.as_bytes()), key: copy_bytes(key.as_bytes()), error: e }
}

fn contains_dot(s: &str) -> (r: bool)
    ensures
        r == s@.contains('.'),
{
    let n = s.unicode_len();
    let mut i: usize = 0;
    while i < n
        invariant
            i <= n,
            n == s@.len(),
            forall|k: int| 0 <= k < i ==> s@[k] != '.',
        decreases n - i,
    {
        if s.get_char(i) == '.' {
            return true;
        }
        i = i + 1;
    }
    false
}

impl Config {
    /// Set one configuration key (see `kv_spec`). `src` names where the
    /// setting came from, for the error. A refused setting changes nothing.
    #[verifier::rlimit(100)]
    #[verifier::spinoff_prover]
    pub fn apply_kv(&mut self, key: &str, value: &str, src: &str) -> (r: Result<(), ConfigError>)
        requires
            old(self).wf(),
            !kv_panics(key@, value@),
        ensures
            final(self).wf(),
            match kv_spec(old(self)@, key@, value@) {
                None => final(self)@ == old(self)@ && (r matches Err(ConfigError::UnknownKey { src: s, key: k })
                    && s@ == src.spec_bytes() && k@ == key.spec_bytes()),
                Some(Ok(v)) => r is Ok && final(self)@ == v,
                Some(Err(e)) => final(self)@ == old(self)@ && (r matches Err(
                    ConfigError::BadValue { src: s, key: k, error: x },
                ) && s@ == src.spec_bytes() && k@ == key.spec_bytes() && x@ == e),
            },
    {
        reveal(kv_spec);
        if str_is(key, "activate") {
            match parse_activate(value) { Ok(a) => { self.activate = a; }, Err(e) => { return Err(bad_value(src, key, e)); } }
        } else if str_is(key, "pager") {
            match parse_pager(value) { Ok(a) => { self.pager = a; }, Err(e) => { return Err(bad_value(src, key, e)); } }
        } else if str_is(key, "ui.color") {
            match parse_color(value) { Ok(a) => { self.color = a; }, Err(e) => { return Err(bad_value(src, key, e)); } }
        } else if str_is(key, "graph.edges.chars.horizontal") {
            self.graph_horizontal = String::from_str(value);
        } else if str_is(key, "graph.edges.chars.vertical") {
            self.graph_vertical = String::from_str(value);
        } else if str_is(key, "graph.edges.chars.top-left") {
            self.graph_top_left = String::from_str(value);
        } else if str_is(key, "graph.edges.chars.top-right") {
            self.graph_top_right = String::from_str(value);
        } else if str_is(key, "graph.edges.chars.bottom-left") {
            self.graph_bottom_left = String::from_str(value);
        } else if str_is(key, "graph.edges.chars.bottom-right") {
            self.graph_bottom_right = String::from_str(value);
        } else if str_is(key, "graph.edges.chars.tee-right") {
            self.graph_tee_right = String::from_str(value);
        } else if str_is(key, "graph.edges.chars.tee-left") {
            self.graph_tee_left = String::from_str(value);
        } else if str_is(key, "graph.edges.chars.tee-down") {
            self.graph_tee_down = String::from_str(value);
        } else if str_is(key, "graph.edges.chars.tee-up") {
            self.graph_tee_up = String::from_str(value);
        } else if str_is(key, "graph.edges.chars.cross") {
            self.graph_cross = String::from_str(value);
        } else if str_is(key, "graph.edges.chars.elision") {
            self.graph_elision = String::from_str(value);
        } else if str_is(key, "graph.collapse") {
            match parse_bool_str(value) { Ok(b) => { self.graph_collapse = b; }, Err(e) => { return Err(bad_value(src, key, e)); } }
        } else if str_is(key, "layout.dash") {
            self.dash = String::from_str(value);
        } else if str_is(key, "layout.dash-start") {
            self.dash_start = String::from_str(value);
        } else if str_is(key, "layout.dash-end") {
            self.dash_end = String::from_str(value);
        } else if str_is(key, "stream.enabled") {
            match parse_bool_str(value) { Ok(b) => { self.stream_enabled = b; }, Err(e) => { return Err(bad_value(src, key, e)); } }
        } else if str_is(key, "stream.batch-size") {
            match parse_batch_size(value) { Ok(b) => { self.stream_batch_size = b; }, Err(e) => { return Err(bad_value(src, key, e)); } }
        } else if str_is(key, "colors.dash-filler") {
            match parse_color_bytes(value.as_bytes()) { Ok(b) => { self.dim_on = b; }, Err(e) => { return Err(bad_value(src, key, e)); } }
        } else if str_is(key, "colors.graph-edge") {
            match parse_color_bytes(value.as_bytes()) { Ok(b) => { self.edge_dim_on = b; }, Err(e) => { return Err(bad_value(src, key, e)); } }
        } else if str_is(key, "hydra.enable") {
            match parse_bool_str(value) { Ok(b) => { self.hydra_enable = b; }, Err(e) => { return Err(bad_value(src, key, e)); } }
        } else if str_is(key, "hydra.top-stack-padding") {
            match parse_bool_str(value) { Ok(b) => { self.hydra_top_stack_padding = b; }, Err(e) => { return Err(bad_value(src, key, e)); } }
        } else if str_is(key, "hydra.colors") {
            match parse_hydra_colors(value) { Ok(h) => { self.hydra_colors = h; }, Err(e) => { return Err(bad_value(src, key, e)); } }
        } else if str_is(key, "hydra.color-bookmarks") {
            match parse_bool_str(value) { Ok(b) => { self.hydra_color_bookmarks = b; }, Err(e) => { return Err(bad_value(src, key, e)); } }
        } else if str_is(key, "hydra.prefixes.prefix") {
            self.hydra_prefixes.prefix = String::from_str(value);
        } else if str_is(key, "hydra.prefixes.base") {
            self.hydra_prefixes.base = String::from_str(value);
        } else if str_is(key, "hydra.prefixes.head") {
            self.hydra_prefixes.head = String::from_str(value);
        } else if str_is(key, "hydra.prefixes.conflict-resolution") {
            self.hydra_prefixes.conflict_resolution = String::from_str(value);
        } else if str_is(key, "hydra.prefixes.stack-head") {
            self.hydra_prefixes.stack_head = String::from_str(value);
        } else if str_is(key, "hydra.prefixes.stack-working-copy") {
            self.hydra_prefixes.stack_working_copy = String::from_str(value);
        } else if str_is(key, "hydra.prefixes-replace.prefix") {
            self.hydra_prefixes_replace.prefix = Some(String::from_str(value));
        } else if str_is(key, "hydra.prefixes-replace.base") {
            self.hydra_prefixes_replace.base = Some(String::from_str(value));
        } else if str_is(key, "hydra.prefixes-replace.head") {
            self.hydra_prefixes_replace.head = Some(String::from_str(value));
        } else if str_is(key, "hydra.prefixes-replace.conflict-resolution") {
            self.hydra_prefixes_replace.conflict_resolution = Some(String::from_str(value));
        } else if str_is(key, "hydra.prefixes-replace.stack-head") {
            self.hydra_prefixes_replace.stack_head = Some(String::from_str(value));
        } else if str_is(key, "hydra.prefixes-replace.stack-working-copy") {
            self.hydra_prefixes_replace.stack_working_copy = Some(String::from_str(value));
        } else if str_is(key, "debug.force-screen-height") {
            match parse_screen_height(value.as_bytes()) { Ok(h) => { self.debug_force_screen_height = Some(h); }, Err(e) => { return Err(bad_value(src, key, e)); } }
        } else if let Some(name) = strip_prefix(key, "templates.") {
            if name.unicode_len() == 0 || contains_dot(name) {
                return Err(bad_value(src, key, ValueError::TemplateNameNotFlat(copy_bytes(key.as_bytes()))));
            }
            let ghost before = self.templates@;
            self.templates.insert(copy_bytes(name.as_bytes()), String::from_str(value));
            assert(self.templates@.map_values(|s: String| s@) =~= before.map_values(|s: String| s@).insert(
                encode_utf8(name@),
                value@,
            ));
        } else {
            return Err(ConfigError::UnknownKey { src: copy_bytes(src.as_bytes()), key: copy_bytes(key.as_bytes()) });
        }
        Ok(())
    }
}


// ---------------------------------------------------------------------------
// Command line

/// What one command-line argument asks for.
pub enum CliArg {
    /// Set `key` to `value`.
    Kv(Seq<char>, Seq<char>),
    /// Not a `--` flag.
    UnknownArgument,
    /// `--key` with no `=value`; the flag without its dashes.
    MissingValue(Seq<char>),
}

/// Reading of one argument: `--activate`, `--stream[=BOOL]` and
/// `--color[=MODE]` are shorthands; any other `--key=value` sets `key`, with
/// `__` standing for `.`.
pub open spec fn cli_arg(arg: Seq<char>) -> CliArg {
    if arg == "--activate"@ {
        CliArg::Kv("activate"@, "always"@)
    } else if arg == "--stream"@ {
        CliArg::Kv("stream.enabled"@, "true"@)
    } else if strip_prefix_of(arg, "--stream="@) is Some {
        CliArg::Kv("stream.enabled"@, strip_prefix_of(arg, "--stream="@)->0)
    } else if arg == "--color"@ {
        CliArg::Kv("ui.color"@, "always"@)
    } else if strip_prefix_of(arg, "--color="@) is Some {
        CliArg::Kv("ui.color"@, strip_prefix_of(arg, "--color="@)->0)
    } else {
        match strip_prefix_of(arg, "--"@) {
            None => CliArg::UnknownArgument,
            Some(rest) => match split_once_of(rest, '=') {
                None => CliArg::MissingValue(rest),
                Some((k, v)) => CliArg::Kv(dots_for_double_underscores(k), v),
            },
        }
    }
}

/// The configuration after one argument, or `None` when it is refused.
pub open spec fn cli_step(c: ConfigView, arg: Seq<char>) -> Option<ConfigView> {
    match cli_arg(arg) {
        CliArg::Kv(key, value) => match kv_spec(c, key, value) {
            Some(Ok(v)) => Some(v),
            _ => None,
        },
        _ => None,
    }
}

/// The configuration after the first `k` arguments, and the index of the
/// first argument refused (after which nothing more is applied).
pub struct CliRun {
    pub config: ConfigView,
    pub failed: Option<int>,
}

pub open spec fn cli_run(c: ConfigView, args: Seq<Seq<char>>, k: int) -> CliRun
    decreases k,
{
    if k <= 0 {
        CliRun { config: c, failed: None }
    } else {
        let prev = cli_run(c, args, k - 1);
        if prev.failed is Some {
            prev
        } else {
            match cli_step(prev.config, args[k - 1]) {
                Some(v) => CliRun { config: v, failed: None },
                None => CliRun { config: prev.config, failed: Some(k - 1) },
            }
        }
    }
}

/// Some argument among the first `k`, reached with no refusal before it,
/// would slice a colour inside a character.
pub open spec fn cli_panics(c: ConfigView, args: Seq<Seq<char>>, k: int) -> bool
    decreases k,
{
    if k <= 0 {
        false
    } else {
        cli_panics(c, args, k - 1) || (cli_run(c, args, k - 1).failed is None && match cli_arg(args[k - 1]) {
            CliArg::Kv(key, value) => kv_panics(key, value),
            _ => false,
        })
    }
}

/// `e` is the error refusing `arg` against configuration `c`.
pub open spec fn cli_error(e: ConfigError, c: ConfigView, arg: Seq<char>) -> bool {
    match cli_arg(arg) {
        CliArg::UnknownArgument => e matches ConfigError::UnknownArgument(a) && a@ == encode_utf8(arg),
        CliArg::MissingValue(rest) => e matches ConfigError::MissingValue(m) && m@ == encode_utf8(rest),
        CliArg::Kv(key, value) => match kv_spec(c, key, value) {
            None => e matches ConfigError::UnknownKey { src, key: k } && src@ == "cli".spec_bytes() && k@
                == encode_utf8(key),
            Some(Err(ve)) => e matches ConfigError::BadValue { src, key: k, error } && src@
                == "cli".spec_bytes() && k@ == encode_utf8(key) && error@ == ve,
            Some(Ok(_)) => false,
        },
    }
}

pub open spec fn strs(args: Seq<String>) -> Seq<Seq<char>> {
    Seq::new(args.len(), |i: int| args[i]@)
}

proof fn lemma_cli_panics_mono(c: ConfigView, args: Seq<Seq<char>>, j: int, k: int)
    requires
        0 <= j <= k,
        cli_panics(c, args, j),
    ensures
        cli_panics(c, args, k),
    decreases k,
{
    if j < k {
        lemma_cli_panics_mono(c, args, j, k - 1);
    }
}

proof fn lemma_cli_failed_stays(c: ConfigView, args: Seq<Seq<char>>, j: int, k: int)
    requires
        0 <= j <= k,
        cli_run(c, args, j).failed is Some,
    ensures
        cli_run(c, args, k) == cli_run(c, args, j),
    decreases k,
{
    if j < k {
        lemma_cli_failed_stays(c, args, j, k - 1);
    }
}

impl Config {
    /// Apply one command-line argument (see `cli_arg`).
    #[verifier::rlimit(40)]
    fn apply_arg(&mut self, arg: &str) -> (r: Result<(), ConfigError>)
        requires
            old(self).wf(),
            cli_arg(arg@) matches CliArg::Kv(key, value) ==> !kv_panics(key, value),
        ensures
            final(self).wf(),
            match cli_step(old(self)@, arg@) {
                Some(c) => r is Ok && final(self)@ == c,
                None => final(self)@ == old(self)@ && (r matches Err(e) && cli_error(e, old(self)@, arg@)),
            },
    {
        proof {
            reveal_strlit("--activate");
            reveal_strlit("--stream");
            reveal_strlit("--color");
        }
        if str_is(arg, "--activate") {
            self.apply_kv("activate", "always", "cli")
        } else if str_is(arg, "--stream") {
            self.apply_kv("stream.enabled", "true", "cli")
        } else if let Some(value) = strip_prefix(arg, "--stream=") {
            self.apply_kv("stream.enabled", value, "cli")
        } else if str_is(arg, "--color") {
            self.apply_kv("ui.color", "always", "cli")
        } else if let Some(value) = strip_prefix(arg, "--color=") {
            self.apply_kv("ui.color", value, "cli")
        } else {
            match strip_prefix(arg, "--") {
                None => Err(ConfigError::UnknownArgument(copy_bytes(arg.as_bytes()))),
                Some(rest) => match split_once(rest, '=') {
                    None => Err(ConfigError::MissingValue(copy_bytes(rest.as_bytes()))),
                    Some((raw_key, value)) => {
                        let key = replace_double_underscores(raw_key);
                        self.apply_kv(key.as_str(), value, "cli")
                    },
                },
            }
        }
    }

    /// Whether applying this argument would cut a colour inside a character
    /// (see `kv_panics`).
    pub fn cli_arg_panics(arg: &str) -> (r: bool)
        ensures
            r == (cli_arg(arg@) matches CliArg::Kv(key, value) && kv_panics(key, value)),
    {
        proof {
            reveal_strlit("--activate");
            reveal_strlit("--stream");
            reveal_strlit("--color");
        }
        if str_is(arg, "--activate") {
            kv_panics_check("activate", "always")
        } else if str_is(arg, "--stream") {
            kv_panics_check("stream.enabled", "true")
        } else if let Some(value) = strip_prefix(arg, "--stream=") {
            kv_panics_check("stream.enabled", value)
        } else if str_is(arg, "--color") {
            kv_panics_check("ui.color", "always")
        } else if let Some(value) = strip_prefix(arg, "--color=") {
            kv_panics_check("ui.color", value)
        } else {
            match strip_prefix(arg, "--") {
                None => false,
                Some(rest) => match split_once(rest, '=') {
                    None => false,
                    Some((raw_key, value)) => {
                        let key = replace_double_underscores(raw_key);
                        kv_panics_check(key.as_str(), value)
                    },
                },
            }
        }
    }

    /// Apply command-line arguments in order (see `cli_arg`); the first one
    /// refused stops the run, leaving the earlier ones applied.
    pub fn apply_cli(&mut self, args: Vec<String>) -> (r: Result<(), ConfigError>)
        requires
            old(self).wf(),
            !cli_panics(old(self)@, strs(args@), args@.len() as int),
        ensures
            final(self).wf(),
            final(self)@ == cli_run(old(self)@, strs(args@), args@.len() as int).config,
            r is Ok <==> cli_run(old(self)@, strs(args@), args@.len() as int).failed is None,
            r matches Err(e) ==> cli_error(
                e,
                final(self)@,
                strs(args@)[cli_run(old(self)@, strs(args@), args@.len() as int).failed->0],
            ),
    {
        let ghost c0 = self@;
        let ghost a = strs(args@);
        let n = args.len();
        let mut k: usize = 0;
        let mut failed: Option<ConfigError> = None;
        while k < n && failed.is_none()
            invariant
                n == args@.len(),
                a == strs(args@),
                k <= n,
                self.wf(),
                !cli_panics(c0, a, n as int),
                failed is None ==> cli_run(c0, a, k as int).failed is None && self@ == cli_run(c0, a, k as int).config,
                failed matches Some(e) ==> k < n && cli_run(c0, a, n as int) == cli_run(c0, a, k + 1)
                    && cli_run(c0, a, k + 1).failed == Some(k as int) && self@ == cli_run(c0, a, k + 1).config
                    && cli_error(e, self@, a[k as int]),
            decreases n - k, (if failed is None { 1int } else { 0int }),
        {
            let arg = args[k].as_str();
            proof {
                assert(a[k as int] == arg@);
                if cli_panics(c0, a, k + 1) {
                    lemma_cli_panics_mono(c0, a, k + 1, n as int);
                }
            }
            match self.apply_arg(arg) {
                Ok(()) => {
                    k = k + 1;
                },
                Err(e) => {
                    proof {
                        assert(cli_run(c0, a, k + 1).failed == Some(k as int));
                        lemma_cli_failed_stays(c0, a, k + 1, n as int);
                    }
                    failed = Some(e);
                },
            }
        }
        if let Some(e) = failed {
            return Err(e);
        }
        Ok(())
    }
}


// ---------------------------------------------------------------------------
// Lists of settings

/// The configuration after the first `k` settings, and the index of the
/// first one refused (after which nothing more is applied).
pub open spec fn kvs_run(c: ConfigView, kvs: Seq<(Seq<char>, Seq<char>)>, k: int) -> CliRun
    decreases k,
{
    if k <= 0 {
        CliRun { config: c, failed: None }
    } else {
        let prev = kvs_run(c, kvs, k - 1);
        if prev.failed is Some {
            prev
        } else {
            match kv_spec(prev.config, kvs[k - 1].0, kvs[k - 1].1) {
                Some(Ok(v)) => CliRun { config: v, failed: None },
                _ => CliRun { config: prev.config, failed: Some(k - 1) },
            }
        }
    }
}

/// Some setting among the first `k`, reached with no refusal before it,
/// would cut a colour inside a character.
pub open spec fn kvs_panic(c: ConfigView, kvs: Seq<(Seq<char>, Seq<char>)>, k: int) -> bool
    decreases k,
{
    if k <= 0 {
        false
    } else {
        kvs_panic(c, kvs, k - 1) || (kvs_run(c, kvs, k - 1).failed is None && kv_panics(kvs[k - 1].0, kvs[k - 1].1))
    }
}

/// `e` is the error refusing `key = value` (from `src`) against `c`.
pub open spec fn kv_error(e: ConfigError, c: ConfigView, key: Seq<char>, value: Seq<char>, src: Seq<u8>) -> bool {
    match kv_spec(c, key, value) {
        None => e matches ConfigError::UnknownKey { src: s, key: k } && s@ == src && k@ == encode_utf8(key),
        Some(Err(ve)) => e matches ConfigError::BadValue { src: s, key: k, error } && s@ == src && k@
            == encode_utf8(key) && error@ == ve,
        Some(Ok(_)) => false,
    }
}

pub open spec fn kv_pairs(v: Seq<(String, String)>) -> Seq<(Seq<char>, Seq<char>)> {
    Seq::new(v.len(), |i: int| (v[i].0@, v[i].1@))
}

proof fn lemma_kvs_panic_mono(c: ConfigView, kvs: Seq<(Seq<char>, Seq<char>)>, j: int, k: int)
    requires
        0 <= j <= k,
        kvs_panic(c, kvs, j),
    ensures
        kvs_panic(c, kvs, k),
    decreases k,
{
    if j < k {
        lemma_kvs_panic_mono(c, kvs, j, k - 1);
    }
}

proof fn lemma_kvs_failed_stays(c: ConfigView, kvs: Seq<(Seq<char>, Seq<char>)>, j: int, k: int)
    requires
        0 <= j <= k,
        kvs_run(c, kvs, j).failed is Some,
    ensures
        kvs_run(c, kvs, k) == kvs_run(c, kvs, j),
    decreases k,
{
    if j < k {
        lemma_kvs_failed_stays(c, kvs, j, k - 1);
    }
}

impl Config {
    /// Apply settings in order, each from `src` (see `kvs_run`); the first
    /// one refused stops the run, leaving the earlier ones applied.
    pub fn apply_kvs(&mut self, kvs: &Vec<(String, String)>, src: &str) -> (r: Result<(), ConfigError>)
        requires
            old(self).wf(),
            !kvs_panic(old(self)@, kv_pairs(kvs@), kvs@.len() as int),
        ensures
            final(self).wf(),
            final(self)@ == kvs_run(old(self)@, kv_pairs(kvs@), kvs@.len() as int).config,
            r is Ok <==> kvs_run(old(self)@, kv_pairs(kvs@), kvs@.len() as int).failed is None,
            r matches Err(e) ==> ({
                let f = kvs_run(old(self)@, kv_pairs(kvs@), kvs@.len() as int).failed->0;
                kv_error(e, final(self)@, kv_pairs(kvs@)[f].0, kv_pairs(kvs@)[f].1, src.spec_bytes())
            }),
    {
        let ghost c0 = self@;
        let ghost a = kv_pairs(kvs@);
        let n = kvs.len();
        let mut k: usize = 0;
        let mut failed: Option<ConfigError> = None;
        while k < n && failed.is_none()
            invariant
                n == kvs@.len(),
                a == kv_pairs(kvs@),
                k <= n,
                self.wf(),
                !kvs_panic(c0, a, n as int),
                failed is None ==> kvs_run(c0, a, k as int).failed is None && self@ == kvs_run(c0, a, k as int).config,
                failed matches Some(e) ==> k < n && kvs_run(c0, a, n as int) == kvs_run(c0, a, k + 1)
                    && kvs_run(c0, a, k + 1).failed == Some(k as int) && self@ == kvs_run(c0, a, k + 1).config
                    && kv_error(e, self@, a[k as int].0, a[k as int].1, src.spec_bytes()),
            decreases n - k, (if failed is None { 1int } else { 0int }),
        {
            let key = kvs[k].0.as_str();
            let value = kvs[k].1.as_str();
            proof {
                assert(a[k as int] == (key@, value@));
                if kvs_panic(c0, a, k + 1) {
                    lemma_kvs_panic_mono(c0, a, k + 1, n as int);
                }
            }
            match self.apply_kv(key, value, src) {
                Ok(()) => {
                    k = k + 1;
                },
                Err(e) => {
                    proof {
                        assert(kvs_run(c0, a, k + 1).failed == Some(k as int));
                        lemma_kvs_failed_stays(c0, a, k + 1, n as int);
                    }
                    failed = Some(e);
                },
            }
        }
        if let Some(e) = failed {
            return Err(e);
        }
        Ok(())
    }
}

/// Whether a setting is taken does not depend on the configuration it is
/// applied to.
#[verifier::rlimit(60)]
proof fn lemma_kv_taken_anywhere(c1: ConfigView, c2: ConfigView, key: Seq<char>, value: Seq<char>)
    ensures
        (kv_spec(c1, key, value) matches Some(Ok(_))) == (kv_spec(c2, key, value) matches Some(Ok(_))),
{
    reveal(kv_spec);
}

proof fn lemma_run_fails_anywhere(c1: ConfigView, c2: ConfigView, kvs: Seq<(Seq<char>, Seq<char>)>, k: int)
    ensures
        kvs_run(c1, kvs, k).failed == kvs_run(c2, kvs, k).failed,
        kvs_panic(c1, kvs, k) == kvs_panic(c2, kvs, k),
    decreases k,
{
    if k > 0 {
        lemma_run_fails_anywhere(c1, c2, kvs, k - 1);
        let p1 = kvs_run(c1, kvs, k - 1);
        let p2 = kvs_run(c2, kvs, k - 1);
        lemma_kv_taken_anywhere(p1.config, p2.config, kvs[k - 1].0, kvs[k - 1].1);
    }
}

/// Whether applying these settings in order, to any configuration, would
/// cut a colour inside a character (see `kvs_panic`).
pub fn settings_panic(kvs: &Vec<(String, String)>) -> (r: bool)
    ensures
        forall|c: ConfigView| r == #[trigger] kvs_panic(c, kv_pairs(kvs@), kvs@.len() as int),
{
    let ghost a = kv_pairs(kvs@);
    let mut c = Config::default();
    let n = kvs.len();
    let mut k: usize = 0;
    let mut stop = false;
    let mut hit = false;
    while k < n && !stop
        invariant
            n == kvs@.len(),
            a == kv_pairs(kvs@),
            k <= n,
            c.wf(),
            !stop ==> !kvs_panic(default_view(), a, k as int) && kvs_run(default_view(), a, k as int).failed is None
                && c@ == kvs_run(default_view(), a, k as int).config,
            stop ==> hit == kvs_panic(default_view(), a, n as int),
            !stop ==> !hit,
        decreases n - k, (if stop { 0int } else { 1int }),
    {
        let key = kvs[k].0.as_str();
        let value = kvs[k].1.as_str();
        assert(a[k as int] == (key@, value@));
        if kv_panics_check(key, value) {
            assert(kvs_panic(default_view(), a, k + 1));
            proof { lemma_kvs_panic_mono(default_view(), a, k + 1, n as int); }
            hit = true;
            stop = true;
        } else {
            match c.apply_kv(key, value, "") {
                Ok(()) => {
                    k = k + 1;
                },
                Err(_) => {
                    proof {
                        assert(kvs_run(default_view(), a, k + 1).failed == Some(k as int));
                        assert(!kvs_panic(default_view(), a, k + 1));
                        lemma_failed_no_panic(default_view(), a, k + 1, n as int);
                    }
                    hit = false;
                    stop = true;
                },
            }
        }
    }
    assert forall|c: ConfigView| hit == #[trigger] kvs_panic(c, a, n as int) by {
        lemma_run_fails_anywhere(c, default_view(), a, n as int);
    }
    hit
}

/// Past a refused setting nothing more is applied, so nothing more can
/// panic.
proof fn lemma_failed_no_panic(c: ConfigView, kvs: Seq<(Seq<char>, Seq<char>)>, j: int, k: int)
    requires
        0 <= j <= k,
        kvs_run(c, kvs, j).failed is Some,
        !kvs_panic(c, kvs, j),
    ensures
        !kvs_panic(c, kvs, k),
        kvs_run(c, kvs, k).failed is Some,
    decreases k,
{
    if j < k {
        lemma_failed_no_panic(c, kvs, j, k - 1);
    }
}

/// A later setting of a key wins: once `key = v1` is taken, setting
/// `key = v2` gives what setting `key = v2` alone would have given (the
/// same configuration, or the same refusal). This is what makes the
/// command line override the environment, and both the file.
#[verifier::rlimit(100)]
pub proof fn lemma_later_setting_wins(c: ConfigView, key: Seq<char>, v1: Seq<char>, v2: Seq<char>)
    requires
        kv_spec(c, key, v1) matches Some(Ok(_)),
    ensures
        kv_spec(kv_spec(c, key, v1)->Some_0->Ok_0, key, v2) == kv_spec(c, key, v2),
{
    reveal(kv_spec);
    // One case per key, so each unfolding of `kv_spec` takes one branch.
    if key == "activate"@ {
    } else if key == "pager"@ {
    } else if key == "ui.color"@ {
    } else if key == "graph.edges.chars.horizontal"@ {
    } else if key == "graph.edges.chars.vertical"@ {
    } else if key == "graph.edges.chars.top-left"@ {
    } else if key == "graph.edges.chars.top-right"@ {
    } else if key == "graph.edges.chars.bottom-left"@ {
    } else if key == "graph.edges.chars.bottom-right"@ {
    } else if key == "graph.edges.chars.tee-right"@ {
    } else if key == "graph.edges.chars.tee-left"@ {
    } else if key == "graph.edges.chars.tee-down"@ {
    } else if key == "graph.edges.chars.tee-up"@ {
    } else if key == "graph.edges.chars.cross"@ {
    } else if key == "graph.edges.chars.elision"@ {
    } else if key == "graph.collapse"@ {
    } else if key == "layout.dash"@ {
    } else if key == "layout.dash-start"@ {
    } else if key == "layout.dash-end"@ {
    } else if key == "stream.enabled"@ {
    } else if key == "stream.batch-size"@ {
    } else if key == "colors.dash-filler"@ {
    } else if key == "colors.graph-edge"@ {
    } else if key == "hydra.enable"@ {
    } else if key == "hydra.top-stack-padding"@ {
    } else if key == "hydra.colors"@ {
    } else if key == "hydra.color-bookmarks"@ {
    } else if key == "hydra.prefixes.prefix"@ {
    } else if key == "hydra.prefixes.base"@ {
    } else if key == "hydra.prefixes.head"@ {
    } else if key == "hydra.prefixes.conflict-resolution"@ {
    } else if key == "hydra.prefixes.stack-head"@ {
    } else if key == "hydra.prefixes.stack-working-copy"@ {
    } else if key == "hydra.prefixes-replace.prefix"@ {
    } else if key == "hydra.prefixes-replace.base"@ {
    } else if key == "hydra.prefixes-replace.head"@ {
    } else if key == "hydra.prefixes-replace.conflict-resolution"@ {
    } else if key == "hydra.prefixes-replace.stack-head"@ {
    } else if key == "hydra.prefixes-replace.stack-working-copy"@ {
    } else if key == "debug.force-screen-height"@ {
    } else if strip_prefix_of(key, "templates."@) is Some {
        let name = strip_prefix_of(key, "templates."@)->0;
        assert(c.templates.insert(encode_utf8(name), v1).insert(encode_utf8(name), v2) =~= c.templates.insert(
            encode_utf8(name),
            v2,
        ));
    }
}

/// Each `graph.edges.chars` key sets the glyph for its own edge and leaves
/// every other setting as it was.
pub proof fn lemma_edge_keys(c: ConfigView, v: Seq<char>)
    ensures
        kv_spec(c, "graph.edges.chars.horizontal"@, v) == Some(Ok::<ConfigView, ValueErrorView>(ConfigView { graph_horizontal: v, ..c })),
        kv_spec(c, "graph.edges.chars.vertical"@, v) == Some(Ok::<ConfigView, ValueErrorView>(ConfigView { graph_vertical: v, ..c })),
        kv_spec(c, "graph.edges.chars.top-left"@, v) == Some(Ok::<ConfigView, ValueErrorView>(ConfigView { graph_top_left: v, ..c })),
        kv_spec(c, "graph.edges.chars.top-right"@, v) == Some(Ok::<ConfigView, ValueErrorView>(ConfigView { graph_top_right: v, ..c })),
        kv_spec(c, "graph.edges.chars.bottom-left"@, v) == Some(Ok::<ConfigView, ValueErrorView>(ConfigView { graph_bottom_left: v, ..c })),
        kv_spec(c, "graph.edges.chars.bottom-right"@, v) == Some(Ok::<ConfigView, ValueErrorView>(ConfigView { graph_bottom_right: v, ..c })),
        kv_spec(c, "graph.edges.chars.tee-right"@, v) == Some(Ok::<ConfigView, ValueErrorView>(ConfigView { graph_tee_right: v, ..c })),
        kv_spec(c, "graph.edges.chars.tee-left"@, v) == Some(Ok::<ConfigView, ValueErrorView>(ConfigView { graph_tee_left: v, ..c })),
        kv_spec(c, "graph.edges.chars.tee-down"@, v) == Some(Ok::<ConfigView, ValueErrorView>(ConfigView { graph_tee_down: v, ..c })),
        kv_spec(c, "graph.edges.chars.tee-up"@, v) == Some(Ok::<ConfigView, ValueErrorView>(ConfigView { graph_tee_up: v, ..c })),
        kv_spec(c, "graph.edges.chars.cross"@, v) == Some(Ok::<ConfigView, ValueErrorView>(ConfigView { graph_cross: v, ..c })),
        kv_spec(c, "graph.edges.chars.elision"@, v) == Some(Ok::<ConfigView, ValueErrorView>(ConfigView { graph_elision: v, ..c })),
{
    reveal(kv_spec);
    reveal_strlit("activate");
    reveal_strlit("pager");
    reveal_strlit("ui.color");
    reveal_strlit("graph.edges.chars.horizontal");
    reveal_strlit("graph.edges.chars.vertical");
    reveal_strlit("graph.edges.chars.top-left");
    reveal_strlit("graph.edges.chars.top-right");
    reveal_strlit("graph.edges.chars.bottom-left");
    reveal_strlit("graph.edges.chars.bottom-right");
    reveal_strlit("graph.edges.chars.tee-right");
    reveal_strlit("graph.edges.chars.tee-left");
    reveal_strlit("graph.edges.chars.tee-down");
    reveal_strlit("graph.edges.chars.tee-up");
    reveal_strlit("graph.edges.chars.cross");
    reveal_strlit("graph.edges.chars.elision");
    assert("graph.edges.chars.horizontal"@.len() != "activate"@.len());
    assert("graph.edges.chars.horizontal"@.len() != "pager"@.len());
    assert("graph.edges.chars.horizontal"@.len() != "ui.color"@.len());
    assert("graph.edges.chars.vertical"@.len() != "activate"@.len());
    assert("graph.edges.chars.vertical"@.len() != "pager"@.len());
    assert("graph.edges.chars.vertical"@.len() != "ui.color"@.len());
    assert("graph.edges.chars.vertical"@.len() != "graph.edges.chars.horizontal"@.len());
    assert("graph.edges.chars.top-left"@.len() != "activate"@.len());
    assert("graph.edges.chars.top-left"@.len() != "pager"@.len());
    assert("graph.edges.chars.top-left"@.len() != "ui.color"@.len());
    assert("graph.edges.chars.top-left"@.len() != "graph.edges.chars.horizontal"@.len());
    assert("graph.edges.chars.top-left"@[18] != "graph.edges.chars.vertical"@[18]);
    assert("graph.edges.chars.top-right"@.len() != "activate"@.len());
    assert("graph.edges.chars.top-right"@.len() != "pager"@.len());
    assert("graph.edges.chars.top-right"@.len() != "ui.color"@.len());
    assert("graph.edges.chars.top-right"@.len() != "graph.edges.chars.horizontal"@.len());
    assert("graph.edges.chars.top-right"@.len() != "graph.edges.chars.vertical"@.len());
    assert("graph.edges.chars.top-right"@.len() != "graph.edges.chars.top-left"@.len());
    assert("graph.edges.chars.bottom-left"@.len() != "activate"@.len());
    assert("graph.edges.chars.bottom-left"@.len() != "pager"@.len());
    assert("graph.edges.chars.bottom-left"@.len() != "ui.color"@.len());
    assert("graph.edges.chars.bottom-left"@.len() != "graph.edges.chars.horizontal"@.len());
    assert("graph.edges.chars.bottom-left"@.len() != "graph.edges.chars.vertical"@.len());
    assert("graph.edges.chars.bottom-left"@.len() != "graph.edges.chars.top-left"@.len());
    assert("graph.edges.chars.bottom-left"@.len() != "graph.edges.chars.top-right"@.len());
    assert("graph.edges.chars.bottom-right"@.len() != "activate"@.len());
    assert("graph.edges.chars.bottom-right"@.len() != "pager"@.len());
    assert("graph.edges.chars.bottom-right"@.len() != "ui.color"@.len());
    assert("graph.edges.chars.bottom-right"@.len() != "graph.edges.chars.horizontal"@.len());
    assert("graph.edges.chars.bottom-right"@.len() != "graph.edges.chars.vertical"@.len());
    assert("graph.edges.chars.bottom-right"@.len() != "graph.edges.chars.top-left"@.len());
    assert("graph.edges.chars.bottom-right"@.len() != "graph.edges.chars.top-right"@.len());
    assert("graph.edges.chars.bottom-right"@.len() != "graph.edges.chars.bottom-left"@.len());
    assert("graph.edges.chars.tee-right"@.len() != "activate"@.len());
    assert("graph.edges.chars.tee-right"@.len() != "pager"@.len());
    assert("graph.edges.chars.tee-right"@.len() != "ui.color"@.len());
    assert("graph.edges.chars.tee-right"@.len() != "graph.edges.chars.horizontal"@.len());
    assert("graph.edges.chars.tee-right"@.len() != "graph.edges.chars.vertical"@.len());
    assert("graph.edges.chars.tee-right"@.len() != "graph.edges.chars.top-left"@.len());
    assert("graph.edges.chars.tee-right"@[19] != "graph.edges.chars.top-right"@[19]);
    assert("graph.edges.chars.tee-right"@.len() != "graph.edges.chars.bottom-left"@.len());
    assert("graph.edges.chars.tee-right"@.len() != "graph.edges.chars.bottom-right"@.len());
    assert("graph.edges.chars.tee-left"@.len() != "activate"@.len());
    assert("graph.edges.chars.tee-left"@.len() != "pager"@.len());
    assert("graph.edges.chars.tee-left"@.len() != "ui.color"@.len());
    assert("graph.edges.chars.tee-left"@.len() != "graph.edges.chars.horizontal"@.len());
    assert("graph.edges.chars.tee-left"@[18] != "graph.edges.chars.vertical"@[18]);
    assert("graph.edges.chars.tee-left"@[19] != "graph.edges.chars.top-left"@[19]);
    assert("graph.edges.chars.tee-left"@.len() != "graph.edges.chars.top-right"@.len());
    assert("graph.edges.chars.tee-left"@.len() != "graph.edges.chars.bottom-left"@.len());
    assert("graph.edges.chars.tee-left"@.len() != "graph.edges.chars.bottom-right"@.len());
    assert("graph.edges.chars.tee-left"@.len() != "graph.edges.chars.tee-right"@.len());
    assert("graph.edges.chars.tee-down"@.len() != "activate"@.len());
    assert("graph.edges.chars.tee-down"@.len() != "pager"@.len());
    assert("graph.edges.chars.tee-down"@.len() != "ui.color"@.len());
    assert("graph.edges.chars.tee-down"@.len() != "graph.edges.chars.horizontal"@.len());
    assert("graph.edges.chars.tee-down"@[18] != "graph.edges.chars.vertical"@[18]);
    assert("graph.edges.chars.tee-down"@[19] != "graph.edges.chars.top-left"@[19]);
    assert("graph.edges.chars.tee-down"@.len() != "graph.edges.chars.top-right"@.len());
    assert("graph.edges.chars.tee-down"@.len() != "graph.edges.chars.bottom-left"@.len());
    assert("graph.edges.chars.tee-down"@.len() != "graph.edges.chars.bottom-right"@.len());
    assert("graph.edges.chars.tee-down"@.len() != "graph.edges.chars.tee-right"@.len());
    assert("graph.edges.chars.tee-down"@[22] != "graph.edges.chars.tee-left"@[22]);
    assert("graph.edges.chars.tee-up"@.len() != "activate"@.len());
    assert("graph.edges.chars.tee-up"@.len() != "pager"@.len());
    assert("graph.edges.chars.tee-up"@.len() != "ui.color"@.len());
    assert("graph.edges.chars.tee-up"@.len() != "graph.edges.chars.horizontal"@.len());
    assert("graph.edges.chars.tee-up"@.len() != "graph.edges.chars.vertical"@.len());
    assert("graph.edges.chars.tee-up"@.len() != "graph.edges.chars.top-left"@.len());
    assert("graph.edges.chars.tee-up"@.len() != "graph.edges.chars.top-right"@.len());
    assert("graph.edges.chars.tee-up"@.len() != "graph.edges.chars.bottom-left"@.len());
    assert("graph.edges.chars.tee-up"@.len() != "graph.edges.chars.bottom-right"@.len());
    assert("graph.edges.chars.tee-up"@.len() != "graph.edges.chars.tee-right"@.len());
    assert("graph.edges.chars.tee-up"@.len() != "graph.edges.chars.tee-left"@.len());
    assert("graph.edges.chars.tee-up"@.len() != "graph.edges.chars.tee-down"@.len());
    assert("graph.edges.chars.cross"@.len() != "activate"@.len());
    assert("graph.edges.chars.cross"@.len() != "pager"@.len());
    assert("graph.edges.chars.cross"@.len() != "ui.color"@.len());
    assert("graph.edges.chars.cross"@.len() != "graph.edges.chars.horizontal"@.len());
    assert("graph.edges.chars.cross"@.len() != "graph.edges.chars.vertical"@.len());
    assert("graph.edges.chars.cross"@.len() != "graph.edges.chars.top-left"@.len());
    assert("graph.edges.chars.cross"@.len() != "graph.edges.chars.top-right"@.len());
    assert("graph.edges.chars.cross"@.len() != "graph.edges.chars.bottom-left"@.len());
    assert("graph.edges.chars.cross"@.len() != "graph.edges.chars.bottom-right"@.len());
    assert("graph.edges.chars.cross"@.len() != "graph.edges.chars.tee-right"@.len());
    assert("graph.edges.chars.cross"@.len() != "graph.edges.chars.tee-left"@.len());
    assert("graph.edges.chars.cross"@.len() != "graph.edges.chars.tee-down"@.len());
    assert("graph.edges.chars.cross"@.len() != "graph.edges.chars.tee-up"@.len());
    assert("graph.edges.chars.elision"@.len() != "activate"@.len());
    assert("graph.edges.chars.elision"@.len() != "pager"@.len());
    assert("graph.edges.chars.elision"@.len() != "ui.color"@.len());
    assert("graph.edges.chars.elision"@.len() != "graph.edges.chars.horizontal"@.len());
    assert("graph.edges.chars.elision"@.len() != "graph.edges.chars.vertical"@.len());
    assert("graph.edges.chars.elision"@.len() != "graph.edges.chars.top-left"@.len());
    assert("graph.edges.chars.elision"@.len() != "graph.edges.chars.top-right"@.len());
    assert("graph.edges.chars.elision"@.len() != "graph.edges.chars.bottom-left"@.len());
    assert("graph.edges.chars.elision"@.len() != "graph.edges.chars.bottom-right"@.len());
    assert("graph.edges.chars.elision"@.len() != "graph.edges.chars.tee-right"@.len());
    assert("graph.edges.chars.elision"@.len() != "graph.edges.chars.tee-left"@.len());
    assert("graph.edges.chars.elision"@.len() != "graph.edges.chars.tee-down"@.len());
    assert("graph.edges.chars.elision"@.len() != "graph.edges.chars.tee-up"@.len());
    assert("graph.edges.chars.elision"@.len() != "graph.edges.chars.cross"@.len());
}

/// `activate`, `pager` and `ui.color` each read their own mode, leaving every other setting as it was.
#[verifier::rlimit(50)]
pub proof fn lemma_mode_keys(c: ConfigView, v: Seq<char>)
    ensures
        kv_spec(c, "activate"@, v) == Some(match activate_text(v) { Some(a) => Ok(ConfigView { activate: a, ..c }), None => Err(ValueErrorView::ExpectedMode(encode_utf8(v))) }),
        kv_spec(c, "pager"@, v) == Some(match pager_text(v) { Some(a) => Ok(ConfigView { pager: a, ..c }), None => Err(ValueErrorView::ExpectedMode(encode_utf8(v))) }),
        kv_spec(c, "ui.color"@, v) == Some(match color_text(v) { Some(a) => Ok(ConfigView { color: a, ..c }), None => Err(ValueErrorView::ExpectedMode(encode_utf8(v))) }),
{
    reveal(kv_spec);
    reveal_strlit("activate");
    reveal_strlit("pager");
    reveal_strlit("ui.color");
    assert("pager"@.len() != "activate"@.len());
    assert("ui.color"@[0] != "activate"@[0]);
    assert("ui.color"@.len() != "pager"@.len());
}

/// `graph.collapse` and the `layout` and `stream` keys each set their own setting, leaving every other setting as it was.
#[verifier::rlimit(50)]
pub proof fn lemma_layout_keys(c: ConfigView, v: Seq<char>)
    ensures
        kv_spec(c, "graph.collapse"@, v) == Some(match bool_text(v) { Some(b) => Ok(ConfigView { graph_collapse: b, ..c }), None => Err(ValueErrorView::ExpectedBool(encode_utf8(v))) }),
        kv_spec(c, "layout.dash"@, v) == Some(Ok::<ConfigView, ValueErrorView>(ConfigView { dash: v, ..c })),
        kv_spec(c, "layout.dash-start"@, v) == Some(Ok::<ConfigView, ValueErrorView>(ConfigView { dash_start: v, ..c })),
        kv_spec(c, "layout.dash-end"@, v) == Some(Ok::<ConfigView, ValueErrorView>(ConfigView { dash_end: v, ..c })),
        kv_spec(c, "stream.enabled"@, v) == Some(match bool_text(v) { Some(b) => Ok(ConfigView { stream_enabled: b, ..c }), None => Err(ValueErrorView::ExpectedBool(encode_utf8(v))) }),
        kv_spec(c, "stream.batch-size"@, v) == Some(match batch_of(v, encode_utf8(v)) { Ok(b) => Ok(ConfigView { stream_batch_size: b, ..c }), Err(e) => Err(e) }),
{
    reveal(kv_spec);
    reveal_strlit("activate");
    reveal_strlit("pager");
    reveal_strlit("ui.color");
    reveal_strlit("graph.edges.chars.horizontal");
    reveal_strlit("graph.edges.chars.vertical");
    reveal_strlit("graph.edges.chars.top-left");
    reveal_strlit("graph.edges.chars.top-right");
    reveal_strlit("graph.edges.chars.bottom-left");
    reveal_strlit("graph.edges.chars.bottom-right");
    reveal_strlit("graph.edges.chars.tee-right");
    reveal_strlit("graph.edges.chars.tee-left");
    reveal_strlit("graph.edges.chars.tee-down");
    reveal_strlit("graph.edges.chars.tee-up");
    reveal_strlit("graph.edges.chars.cross");
    reveal_strlit("graph.edges.chars.elision");
    reveal_strlit("graph.collapse");
    reveal_strlit("layout.dash");
    reveal_strlit("layout.dash-start");
    reveal_strlit("layout.dash-end");
    reveal_strlit("stream.enabled");
    reveal_strlit("stream.batch-size");
    assert("graph.collapse"@.len() != "activate"@.len());
    assert("graph.collapse"@.len() != "pager"@.len());
    assert("graph.collapse"@.len() != "ui.color"@.len());
    assert("graph.collapse"@.len() != "graph.edges.chars.horizontal"@.len());
    assert("graph.collapse"@.len() != "graph.edges.chars.vertical"@.len());
    assert("graph.collapse"@.len() != "graph.edges.chars.top-left"@.len());
    assert("graph.collapse"@.len() != "graph.edges.chars.top-right"@.len());
    assert("graph.collapse"@.len() != "graph.edges.chars.bottom-left"@.len());
    assert("graph.collapse"@.len() != "graph.edges.chars.bottom-right"@.len());
    assert("graph.collapse"@.len() != "graph.edges.chars.tee-right"@.len());
    assert("graph.collapse"@.len() != "graph.edges.chars.tee-left"@.len());
    assert("graph.collapse"@.len() != "graph.edges.chars.tee-down"@.len());
    assert("graph.collapse"@.len() != "graph.edges.chars.tee-up"@.len());
    assert("graph.collapse"@.len() != "graph.edges.chars.cross"@.len());
    assert("graph.collapse"@.len() != "graph.edges.chars.elision"@.len());
    assert("layout.dash"@.len() != "activate"@.len());
    assert("layout.dash"@.len() != "pager"@.len());
    assert("layout.dash"@.len() != "ui.color"@.len());
    assert("layout.dash"@.len() != "graph.edges.chars.horizontal"@.len());
    assert("layout.dash"@.len() != "graph.edges.chars.vertical"@.len());
    assert("layout.dash"@.len() != "graph.edges.chars.top-left"@.len());
    assert("layout.dash"@.len() != "graph.edges.chars.top-right"@.len());
    assert("layout.dash"@.len() != "graph.edges.chars.bottom-left"@.len());
    assert("layout.dash"@.len() != "graph.edges.chars.bottom-right"@.len());
    assert("layout.dash"@.len() != "graph.edges.chars.tee-right"@.len());
    assert("layout.dash"@.len() != "graph.edges.chars.tee-left"@.len());
    assert("layout.dash"@.len() != "graph.edges.chars.tee-down"@.len());
    assert("layout.dash"@.len() != "graph.edges.chars.tee-up"@.len());
    assert("layout.dash"@.len() != "graph.edges.chars.cross"@.len());
    assert("layout.dash"@.len() != "graph.edges.chars.elision"@.len());
    assert("layout.dash"@.len() != "graph.collapse"@.len());
    assert("layout.dash-start"@.len() != "activate"@.len());
    assert("layout.dash-start"@.len() != "pager"@.len());
    assert("layout.dash-start"@.len() != "ui.color"@.len());
    assert("layout.dash-start"@.len() != "graph.edges.chars.horizontal"@.len());
    assert("layout.dash-start"@.len() != "graph.edges.chars.vertical"@.len());
    assert("layout.dash-start"@.len() != "graph.edges.chars.top-left"@.len());
    assert("layout.dash-start"@.len() != "graph.edges.chars.top-right"@.len());
    assert("layout.dash-start"@.len() != "graph.edges.chars.bottom-left"@.len());
    assert("layout.dash-start"@.len() != "graph.edges.chars.bottom-right"@.len());
    assert("layout.dash-start"@.len() != "graph.edges.chars.tee-right"@.len());
    assert("layout.dash-start"@.len() != "graph.edges.chars.tee-left"@.len());
    assert("layout.dash-start"@.len() != "graph.edges.chars.tee-down"@.len());
    assert("layout.dash-start"@.len() != "graph.edges.chars.tee-up"@.len());
    assert("layout.dash-start"@.len() != "graph.edges.chars.cross"@.len());
    assert("layout.dash-start"@.len() != "graph.edges.chars.elision"@.len());
    assert("layout.dash-start"@.len() != "graph.collapse"@.len());
    assert("layout.dash-start"@.len() != "layout.dash"@.len());
    assert("layout.dash-end"@.len() != "activate"@.len());
    assert("layout.dash-end"@.len() != "pager"@.len());
    assert("layout.dash-end"@.len() != "ui.color"@.len());
    assert("layout.dash-end"@.len() != "graph.edges.chars.horizontal"@.len());
    assert("layout.dash-end"@.len() != "graph.edges.chars.vertical"@.len());
    assert("layout.dash-end"@.len() != "graph.edges.chars.top-left"@.len());
    assert("layout.dash-end"@.len() != "graph.edges.chars.top-right"@.len());
    assert("layout.dash-end"@.len() != "graph.edges.chars.bottom-left"@.len());
    assert("layout.dash-end"@.len() != "graph.edges.chars.bottom-right"@.len());
    assert("layout.dash-end"@.len() != "graph.edges.chars.tee-right"@.len());
    assert("layout.dash-end"@.len() != "graph.edges.chars.tee-left"@.len());
    assert("layout.dash-end"@.len() != "graph.edges.chars.tee-down"@.len());
    assert("layout.dash-end"@.len() != "graph.edges.chars.tee-up"@.len());
    assert("layout.dash-end"@.len() != "graph.edges.chars.cross"@.len());
    assert("layout.dash-end"@.len() != "graph.edges.chars.elision"@.len());
    assert("layout.dash-end"@.len() != "graph.collapse"@.len());
    assert("layout.dash-end"@.len() != "layout.dash"@.len());
    assert("layout.dash-end"@.len() != "layout.dash-start"@.len());
    assert("stream.enabled"@.len() != "activate"@.len());
    assert("stream.enabled"@.len() != "pager"@.len());
    assert("stream.enabled"@.len() != "ui.color"@.len());
    assert("stream.enabled"@.len() != "graph.edges.chars.horizontal"@.len());
    assert("stream.enabled"@.len() != "graph.edges.chars.vertical"@.len());
    assert("stream.enabled"@.len() != "graph.edges.chars.top-left"@.len());
    assert("stream.enabled"@.len() != "graph.edges.chars.top-right"@.len());
    assert("stream.enabled"@.len() != "graph.edges.chars.bottom-left"@.len());
    assert("stream.enabled"@.len() != "graph.edges.chars.bottom-right"@.len());
    assert("stream.enabled"@.len() != "graph.edges.chars.tee-right"@.len());
    assert("stream.enabled"@.len() != "graph.edges.chars.tee-left"@.len());
    assert("stream.enabled"@.len() != "graph.edges.chars.tee-down"@.len());
    assert("stream.enabled"@.len() != "graph.edges.chars.tee-up"@.len());
    assert("stream.enabled"@.len() != "graph.edges.chars.cross"@.len());
    assert("stream.enabled"@.len() != "graph.edges.chars.elision"@.len());
    assert("stream.enabled"@[0] != "graph.collapse"@[0]);
    assert("stream.enabled"@.len() != "layout.dash"@.len());
    assert("stream.enabled"@.len() != "layout.dash-start"@.len());
    assert("stream.enabled"@.len() != "layout.dash-end"@.len());
    assert("stream.batch-size"@.len() != "activate"@.len());
    assert("stream.batch-size"@.len() != "pager"@.len());
    assert("stream.batch-size"@.len() != "ui.color"@.len());
    assert("stream.batch-size"@.len() != "graph.edges.chars.horizontal"@.len());
    assert("stream.batch-size"@.len() != "graph.edges.chars.vertical"@.len());
    assert("stream.batch-size"@.len() != "graph.edges.chars.top-left"@.len());
    assert("stream.batch-size"@.len() != "graph.edges.chars.top-right"@.len());
    assert("stream.batch-size"@.len() != "graph.edges.chars.bottom-left"@.len());
    assert("stream.batch-size"@.len() != "graph.edges.chars.bottom-right"@.len());
    assert("stream.batch-size"@.len() != "graph.edges.chars.tee-right"@.len());
    assert("stream.batch-size"@.len() != "graph.edges.chars.tee-left"@.len());
    assert("stream.batch-size"@.len() != "graph.edges.chars.tee-down"@.len());
    assert("stream.batch-size"@.len() != "graph.edges.chars.tee-up"@.len());
    assert("stream.batch-size"@.len() != "graph.edges.chars.cross"@.len());
    assert("stream.batch-size"@.len() != "graph.edges.chars.elision"@.len());
    assert("stream.batch-size"@.len() != "graph.collapse"@.len());
    assert("stream.batch-size"@.len() != "layout.dash"@.len());
    assert("stream.batch-size"@[0] != "layout.dash-start"@[0]);
    assert("stream.batch-size"@.len() != "layout.dash-end"@.len());
    assert("stream.batch-size"@.len() != "stream.enabled"@.len());
}

/// The `colors` keys, the hydra switches and the forced screen height each set their own setting, leaving every other setting as it was.
#[verifier::rlimit(50)]
pub proof fn lemma_color_keys(c: ConfigView, v: Seq<char>)
    ensures
        kv_spec(c, "colors.dash-filler"@, v) == Some(match color_of(encode_utf8(v)) { Ok(b) => Ok(ConfigView { dim_on: b, ..c }), Err(e) => Err(e) }),
        kv_spec(c, "colors.graph-edge"@, v) == Some(match color_of(encode_utf8(v)) { Ok(b) => Ok(ConfigView { edge_dim_on: b, ..c }), Err(e) => Err(e) }),
        kv_spec(c, "hydra.enable"@, v) == Some(match bool_text(v) { Some(b) => Ok(ConfigView { hydra_enable: b, ..c }), None => Err(ValueErrorView::ExpectedBool(encode_utf8(v))) }),
        kv_spec(c, "hydra.top-stack-padding"@, v) == Some(match bool_text(v) { Some(b) => Ok(ConfigView { hydra_top_stack_padding: b, ..c }), None => Err(ValueErrorView::ExpectedBool(encode_utf8(v))) }),
        kv_spec(c, "hydra.colors"@, v) == Some(match hydra_colors_of(v, encode_utf8(v)) { Ok(h) => Ok(ConfigView { hydra_colors: h, ..c }), Err(e) => Err(e) }),
        kv_spec(c, "hydra.color-bookmarks"@, v) == Some(match bool_text(v) { Some(b) => Ok(ConfigView { hydra_color_bookmarks: b, ..c }), None => Err(ValueErrorView::ExpectedBool(encode_utf8(v))) }),
        kv_spec(c, "debug.force-screen-height"@, v) == Some(match height_of(encode_utf8(v)) { Ok(h) => Ok(ConfigView { debug_force_screen_height: Some(h), ..c }), Err(e) => Err(e) }),
{
    reveal(kv_spec);
    reveal_strlit("activate");
    reveal_strlit("pager");
    reveal_strlit("ui.color");
    reveal_strlit("graph.edges.chars.horizontal");
    reveal_strlit("graph.edges.chars.vertical");
    reveal_strlit("graph.edges.chars.top-left");
    reveal_strlit("graph.edges.chars.top-right");
    reveal_strlit("graph.edges.chars.bottom-left");
    reveal_strlit("graph.edges.chars.bottom-right");
    reveal_strlit("graph.edges.chars.tee-right");
    reveal_strlit("graph.edges.chars.tee-left");
    reveal_strlit("graph.edges.chars.tee-down");
    reveal_strlit("graph.edges.chars.tee-up");
    reveal_strlit("graph.edges.chars.cross");
    reveal_strlit("graph.edges.chars.elision");
    reveal_strlit("graph.collapse");
    reveal_strlit("layout.dash");
    reveal_strlit("layout.dash-start");
    reveal_strlit("layout.dash-end");
    reveal_strlit("stream.enabled");
    reveal_strlit("stream.batch-size");
    reveal_strlit("colors.dash-filler");
    reveal_strlit("colors.graph-edge");
    reveal_strlit("hydra.enable");
    reveal_strlit("hydra.top-stack-padding");
    reveal_strlit("hydra.colors");
    reveal_strlit("hydra.color-bookmarks");
    reveal_strlit("hydra.prefixes.prefix");
    reveal_strlit("hydra.prefixes.base");
    reveal_strlit("hydra.prefixes.head");
    reveal_strlit("hydra.prefixes.conflict-resolution");
    reveal_strlit("hydra.prefixes.stack-head");
    reveal_strlit("hydra.prefixes.stack-working-copy");
    reveal_strlit("hydra.prefixes-replace.prefix");
    reveal_strlit("hydra.prefixes-replace.base");
    reveal_strlit("hydra.prefixes-replace.head");
    reveal_strlit("hydra.prefixes-replace.conflict-resolution");
    reveal_strlit("hydra.prefixes-replace.stack-head");
    reveal_strlit("hydra.prefixes-replace.stack-working-copy");
    reveal_strlit("debug.force-screen-height");
    assert("colors.dash-filler"@.len() != "activate"@.len());
    assert("colors.dash-filler"@.len() != "pager"@.len());
    assert("colors.dash-filler"@.len() != "ui.color"@.len());
    assert("colors.dash-filler"@.len() != "graph.edges.chars.horizontal"@.len());
    assert("colors.dash-filler"@.len() != "graph.edges.chars.vertical"@.len());
    assert("colors.dash-filler"@.len() != "graph.edges.chars.top-left"@.len());
    assert("colors.dash-filler"@.len() != "graph.edges.chars.top-right"@.len());
    assert("colors.dash-filler"@.len() != "graph.edges.chars.bottom-left"@.len());
    assert("colors.dash-filler"@.len() != "graph.edges.chars.bottom-right"@.len());
    assert("colors.dash-filler"@.len() != "graph.edges.chars.tee-right"@.len());
    assert("colors.dash-filler"@.len() != "graph.edges.chars.tee-left"@.len());
    assert("colors.dash-filler"@.len() != "graph.edges.chars.tee-down"@.len());
    assert("colors.dash-filler"@.len() != "graph.edges.chars.tee-up"@.len());
    assert("colors.dash-filler"@.len() != "graph.edges.chars.cross"@.len());
    assert("colors.dash-filler"@.len() != "graph.edges.chars.elision"@.len());
    assert("colors.dash-filler"@.len() != "graph.collapse"@.len());
    assert("colors.dash-filler"@.len() != "layout.dash"@.len());
    assert("colors.dash-filler"@.len() != "layout.dash-start"@.len());
    assert("colors.dash-filler"@.len() != "layout.dash-end"@.len());
    assert("colors.dash-filler"@.len() != "stream.enabled"@.len());
    assert("colors.dash-filler"@.len() != "stream.batch-size"@.len());
    assert("colors.graph-edge"@.len() != "activate"@.len());
    assert("colors.graph-edge"@.len() != "pager"@.len());
    assert("colors.graph-edge"@.len() != "ui.color"@.len());
    assert("colors.graph-edge"@.len() != "graph.edges.chars.horizontal"@.len());
    assert("colors.graph-edge"@.len() != "graph.edges.chars.vertical"@.len());
    assert("colors.graph-edge"@.len() != "graph.edges.chars.top-left"@.len());
    assert("colors.graph-edge"@.len() != "graph.edges.chars.top-right"@.len());
    assert("colors.graph-edge"@.len() != "graph.edges.chars.bottom-left"@.len());
    assert("colors.graph-edge"@.len() != "graph.edges.chars.bottom-right"@.len());
    assert("colors.graph-edge"@.len() != "graph.edges.chars.tee-right"@.len());
    assert("colors.graph-edge"@.len() != "graph.edges.chars.tee-left"@.len());
    assert("colors.graph-edge"@.len() != "graph.edges.chars.tee-down"@.len());
    assert("colors.graph-edge"@.len() != "graph.edges.chars.tee-up"@.len());
    assert("colors.graph-edge"@.len() != "graph.edges.chars.cross"@.len());
    assert("colors.graph-edge"@.len() != "graph.edges.chars.elision"@.len());
    assert("colors.graph-edge"@.len() != "graph.collapse"@.len());
    assert("colors.graph-edge"@.len() != "layout.dash"@.len());
    assert("colors.graph-edge"@[0] != "layout.dash-start"@[0]);
    assert("colors.graph-edge"@.len() != "layout.dash-end"@.len());
    assert("colors.graph-edge"@.len() != "stream.enabled"@.len());
    assert("colors.graph-edge"@[0] != "stream.batch-size"@[0]);
    assert("colors.graph-edge"@.len() != "colors.dash-filler"@.len());
    assert("hydra.enable"@.len() != "activate"@.len());
    assert("hydra.enable"@.len() != "pager"@.len());
    assert("hydra.enable"@.len() != "ui.color"@.len());
    assert("hydra.enable"@.len() != "graph.edges.chars.horizontal"@.len());
    assert("hydra.enable"@.len() != "graph.edges.chars.vertical"@.len());
    assert("hydra.enable"@.len() != "graph.edges.chars.top-left"@.len());
    assert("hydra.enable"@.len() != "graph.edges.chars.top-right"@.len());
    assert("hydra.enable"@.len() != "graph.edges.chars.bottom-left"@.len());
    assert("hydra.enable"@.len() != "graph.edges.chars.bottom-right"@.len());
    assert("hydra.enable"@.len() != "graph.edges.chars.tee-right"@.len());
    assert("hydra.enable"@.len() != "graph.edges.chars.tee-left"@.len());
    assert("hydra.enable"@.len() != "graph.edges.chars.tee-down"@.len());
    assert("hydra.enable"@.len() != "graph.edges.chars.tee-up"@.len());
    assert("hydra.enable"@.len() != "graph.edges.chars.cross"@.len());
    assert("hydra.enable"@.len() != "graph.edges.chars.elision"@.len());
    assert("hydra.enable"@.len() != "graph.collapse"@.len());
    assert("hydra.enable"@.len() != "layout.dash"@.len());
    assert("hydra.enable"@.len() != "layout.dash-start"@.len());
    assert("hydra.enable"@.len() != "layout.dash-end"@.len());
    assert("hydra.enable"@.len() != "stream.enabled"@.len());
    assert("hydra.enable"@.len() != "stream.batch-size"@.len());
    assert("hydra.enable"@.len() != "colors.dash-filler"@.len());
    assert("hydra.enable"@.len() != "colors.graph-edge"@.len());
    assert("hydra.top-stack-padding"@.len() != "activate"@.len());
    assert("hydra.top-stack-padding"@.len() != "pager"@.len());
    assert("hydra.top-stack-padding"@.len() != "ui.color"@.len());
    assert("hydra.top-stack-padding"@.len() != "graph.edges.chars.horizontal"@.len());
    assert("hydra.top-stack-padding"@.len() != "graph.edges.chars.vertical"@.len());
    assert("hydra.top-stack-padding"@.len() != "graph.edges.chars.top-left"@.len());
    assert("hydra.top-stack-padding"@.len() != "graph.edges.chars.top-right"@.len());
    assert("hydra.top-stack-padding"@.len() != "graph.edges.chars.bottom-left"@.len());
    assert("hydra.top-stack-padding"@.len() != "graph.edges.chars.bottom-right"@.len());
    assert("hydra.top-stack-padding"@.len() != "graph.edges.chars.tee-right"@.len());
    assert("hydra.top-stack-padding"@.len() != "graph.edges.chars.tee-left"@.len());
    assert("hydra.top-stack-padding"@.len() != "graph.edges.chars.tee-down"@.len());
    assert("hydra.top-stack-padding"@.len() != "graph.edges.chars.tee-up"@.len());
    assert("hydra.top-stack-padding"@[0] != "graph.edges.chars.cross"@[0]);
    assert("hydra.top-stack-padding"@.len() != "graph.edges.chars.elision"@.len());
    assert("hydra.top-stack-padding"@.len() != "graph.collapse"@.len());
    assert("hydra.top-stack-padding"@.len() != "layout.dash"@.len());
    assert("hydra.top-stack-padding"@.len() != "layout.dash-start"@.len());
    assert("hydra.top-stack-padding"@.len() != "layout.dash-end"@.len());
    assert("hydra.top-stack-padding"@.len() != "stream.enabled"@.len());
    assert("hydra.top-stack-padding"@.len() != "stream.batch-size"@.len());
    assert("hydra.top-stack-padding"@.len() != "colors.dash-filler"@.len());
    assert("hydra.top-stack-padding"@.len() != "colors.graph-edge"@.len());
    assert("hydra.top-stack-padding"@.len() != "hydra.enable"@.len());
    assert("hydra.colors"@.len() != "activate"@.len());
    assert("hydra.colors"@.len() != "pager"@.len());
    assert("hydra.colors"@.len() != "ui.color"@.len());
    assert("hydra.colors"@.len() != "graph.edges.chars.horizontal"@.len());
    assert("hydra.colors"@.len() != "graph.edges.chars.vertical"@.len());
    assert("hydra.colors"@.len() != "graph.edges.chars.top-left"@.len());
    assert("hydra.colors"@.len() != "graph.edges.chars.top-right"@.len());
    assert("hydra.colors"@.len() != "graph.edges.chars.bottom-left"@.len());
    assert("hydra.colors"@.len() != "graph.edges.chars.bottom-right"@.len());
    assert("hydra.colors"@.len() != "graph.edges.chars.tee-right"@.len());
    assert("hydra.colors"@.len() != "graph.edges.chars.tee-left"@.len());
    assert("hydra.colors"@.len() != "graph.edges.chars.tee-down"@.len());
    assert("hydra.colors"@.len() != "graph.edges.chars.tee-up"@.len());
    assert("hydra.colors"@.len() != "graph.edges.chars.cross"@.len());
    assert("hydra.colors"@.len() != "graph.edges.chars.elision"@.len());
    assert("hydra.colors"@.len() != "graph.collapse"@.len());
    assert("hydra.colors"@.len() != "layout.dash"@.len());
    assert("hydra.colors"@.len() != "layout.dash-start"@.len());
    assert("hydra.colors"@.len() != "layout.dash-end"@.len());
    assert("hydra.colors"@.len() != "stream.enabled"@.len());
    assert("hydra.colors"@.len() != "stream.batch-size"@.len());
    assert("hydra.colors"@.len() != "colors.dash-filler"@.len());
    assert("hydra.colors"@.len() != "colors.graph-edge"@.len());
    assert("hydra.colors"@[6] != "hydra.enable"@[6]);
    assert("hydra.colors"@.len() != "hydra.top-stack-padding"@.len());
    assert("hydra.color-bookmarks"@.len() != "activate"@.len());
    assert("hydra.color-bookmarks"@.len() != "pager"@.len());
    assert("hydra.color-bookmarks"@.len() != "ui.color"@.len());
    assert("hydra.color-bookmarks"@.len() != "graph.edges.chars.horizontal"@.len());
    assert("hydra.color-bookmarks"@.len() != "graph.edges.chars.vertical"@.len());
    assert("hydra.color-bookmarks"@.len() != "graph.edges.chars.top-left"@.len());
    assert("hydra.color-bookmarks"@.len() != "graph.edges.chars.top-right"@.len());
    assert("hydra.color-bookmarks"@.len() != "graph.edges.chars.bottom-left"@.len());
    assert("hydra.color-bookmarks"@.len() != "graph.edges.chars.bottom-right"@.len());
    assert("hydra.color-bookmarks"@.len() != "graph.edges.chars.tee-right"@.len());
    assert("hydra.color-bookmarks"@.len() != "graph.edges.chars.tee-left"@.len());
    assert("hydra.color-bookmarks"@.len() != "graph.edges.chars.tee-down"@.len());
    assert("hydra.color-bookmarks"@.len() != "graph.edges.chars.tee-up"@.len());
    assert("hydra.color-bookmarks"@.len() != "graph.edges.chars.cross"@.len());
    assert("hydra.color-bookmarks"@.len() != "graph.edges.chars.elision"@.len());
    assert("hydra.color-bookmarks"@.len() != "graph.collapse"@.len());
    assert("hydra.color-bookmarks"@.len() != "layout.dash"@.len());
    assert("hydra.color-bookmarks"@.len() != "layout.dash-start"@.len());
    assert("hydra.color-bookmarks"@.len() != "layout.dash-end"@.len());
    assert("hydra.color-bookmarks"@.len() != "stream.enabled"@.len());
    assert("hydra.color-bookmarks"@.len() != "stream.batch-size"@.len());
    assert("hydra.color-bookmarks"@.len() != "colors.dash-filler"@.len());
    assert("hydra.color-bookmarks"@.len() != "colors.graph-edge"@.len());
    assert("hydra.color-bookmarks"@.len() != "hydra.enable"@.len());
    assert("hydra.color-bookmarks"@.len() != "hydra.top-stack-padding"@.len());
    assert("hydra.color-bookmarks"@.len() != "hydra.colors"@.len());
    assert("debug.force-screen-height"@.len() != "activate"@.len());
    assert("debug.force-screen-height"@.len() != "pager"@.len());
    assert("debug.force-screen-height"@.len() != "ui.color"@.len());
    assert("debug.force-screen-height"@.len() != "graph.edges.chars.horizontal"@.len());
    assert("debug.force-screen-height"@.len() != "graph.edges.chars.vertical"@.len());
    assert("debug.force-screen-height"@.len() != "graph.edges.chars.top-left"@.len());
    assert("debug.force-screen-height"@.len() != "graph.edges.chars.top-right"@.len());
    assert("debug.force-screen-height"@.len() != "graph.edges.chars.bottom-left"@.len());
    assert("debug.force-screen-height"@.len() != "graph.edges.chars.bottom-right"@.len());
    assert("debug.force-screen-height"@.len() != "graph.edges.chars.tee-right"@.len());
    assert("debug.force-screen-height"@.len() != "graph.edges.chars.tee-left"@.len());
    assert("debug.force-screen-height"@.len() != "graph.edges.chars.tee-down"@.len());
    assert("debug.force-screen-height"@.len() != "graph.edges.chars.tee-up"@.len());
    assert("debug.force-screen-height"@.len() != "graph.edges.chars.cross"@.len());
    assert("debug.force-screen-height"@[0] != "graph.edges.chars.elision"@[0]);
    assert("debug.force-screen-height"@.len() != "graph.collapse"@.len());
    assert("debug.force-screen-height"@.len() != "layout.dash"@.len());
    assert("debug.force-screen-height"@.len() != "layout.dash-start"@.len());
    assert("debug.force-screen-height"@.len() != "layout.dash-end"@.len());
    assert("debug.force-screen-height"@.len() != "stream.enabled"@.len());
    assert("debug.force-screen-height"@.len() != "stream.batch-size"@.len());
    assert("debug.force-screen-height"@.len() != "colors.dash-filler"@.len());
    assert("debug.force-screen-height"@.len() != "colors.graph-edge"@.len());
    assert("debug.force-screen-height"@.len() != "hydra.enable"@.len());
    assert("debug.force-screen-height"@.len() != "hydra.top-stack-padding"@.len());
    assert("debug.force-screen-height"@.len() != "hydra.colors"@.len());
    assert("debug.force-screen-height"@.len() != "hydra.color-bookmarks"@.len());
    assert("debug.force-screen-height"@.len() != "hydra.prefixes.prefix"@.len());
    assert("debug.force-screen-height"@.len() != "hydra.prefixes.base"@.len());
    assert("debug.force-screen-height"@.len() != "hydra.prefixes.head"@.len());
    assert("debug.force-screen-height"@.len() != "hydra.prefixes.conflict-resolution"@.len());
    assert("debug.force-screen-height"@[0] != "hydra.prefixes.stack-head"@[0]);
    assert("debug.force-screen-height"@.len() != "hydra.prefixes.stack-working-copy"@.len());
    assert("debug.force-screen-height"@.len() != "hydra.prefixes-replace.prefix"@.len());
    assert("debug.force-screen-height"@.len() != "hydra.prefixes-replace.base"@.len());
    assert("debug.force-screen-height"@.len() != "hydra.prefixes-replace.head"@.len());
    assert("debug.force-screen-height"@.len() != "hydra.prefixes-replace.conflict-resolution"@.len());
    assert("debug.force-screen-height"@.len() != "hydra.prefixes-replace.stack-head"@.len());
    assert("debug.force-screen-height"@.len() != "hydra.prefixes-replace.stack-working-copy"@.len());
}

/// Each `hydra.prefixes` key sets its own piece of the naming, leaving every other setting as it was.
#[verifier::rlimit(50)]
pub proof fn lemma_prefix_keys(c: ConfigView, v: Seq<char>)
    ensures
        kv_spec(c, "hydra.prefixes.prefix"@, v) == Some(Ok::<ConfigView, ValueErrorView>(ConfigView { hydra_prefixes: HydraPrefixesView { prefix: v, ..c.hydra_prefixes }, ..c })),
        kv_spec(c, "hydra.prefixes.base"@, v) == Some(Ok::<ConfigView, ValueErrorView>(ConfigView { hydra_prefixes: HydraPrefixesView { base: v, ..c.hydra_prefixes }, ..c })),
        kv_spec(c, "hydra.prefixes.head"@, v) == Some(Ok::<ConfigView, ValueErrorView>(ConfigView { hydra_prefixes: HydraPrefixesView { head: v, ..c.hydra_prefixes }, ..c })),
        kv_spec(c, "hydra.prefixes.conflict-resolution"@, v) == Some(Ok::<ConfigView, ValueErrorView>(ConfigView { hydra_prefixes: HydraPrefixesView { conflict_resolution: v, ..c.hydra_prefixes }, ..c })),
        kv_spec(c, "hydra.prefixes.stack-head"@, v) == Some(Ok::<ConfigView, ValueErrorView>(ConfigView { hydra_prefixes: HydraPrefixesView { stack_head: v, ..c.hydra_prefixes }, ..c })),
        kv_spec(c, "hydra.prefixes.stack-working-copy"@, v) == Some(Ok::<ConfigView, ValueErrorView>(ConfigView { hydra_prefixes: HydraPrefixesView { stack_working_copy: v, ..c.hydra_prefixes }, ..c })),
{
    reveal(kv_spec);
    reveal_strlit("activate");
    reveal_strlit("pager");
    reveal_strlit("ui.color");
    reveal_strlit("graph.edges.chars.horizontal");
    reveal_strlit("graph.edges.chars.vertical");
    reveal_strlit("graph.edges.chars.top-left");
    reveal_strlit("graph.edges.chars.top-right");
    reveal_strlit("graph.edges.chars.bottom-left");
    reveal_strlit("graph.edges.chars.bottom-right");
    reveal_strlit("graph.edges.chars.tee-right");
    reveal_strlit("graph.edges.chars.tee-left");
    reveal_strlit("graph.edges.chars.tee-down");
    reveal_strlit("graph.edges.chars.tee-up");
    reveal_strlit("graph.edges.chars.cross");
    reveal_strlit("graph.edges.chars.elision");
    reveal_strlit("graph.collapse");
    reveal_strlit("layout.dash");
    reveal_strlit("layout.dash-start");
    reveal_strlit("layout.dash-end");
    reveal_strlit("stream.enabled");
    reveal_strlit("stream.batch-size");
    reveal_strlit("colors.dash-filler");
    reveal_strlit("colors.graph-edge");
    reveal_strlit("hydra.enable");
    reveal_strlit("hydra.top-stack-padding");
    reveal_strlit("hydra.colors");
    reveal_strlit("hydra.color-bookmarks");
    reveal_strlit("hydra.prefixes.prefix");
    reveal_strlit("hydra.prefixes.base");
    reveal_strlit("hydra.prefixes.head");
    reveal_strlit("hydra.prefixes.conflict-resolution");
    reveal_strlit("hydra.prefixes.stack-head");
    reveal_strlit("hydra.prefixes.stack-working-copy");
    assert("hydra.prefixes.prefix"@.len() != "activate"@.len());
    assert("hydra.prefixes.prefix"@.len() != "pager"@.len());
    assert("hydra.prefixes.prefix"@.len() != "ui.color"@.len());
    assert("hydra.prefixes.prefix"@.len() != "graph.edges.chars.horizontal"@.len());
    assert("hydra.prefixes.prefix"@.len() != "graph.edges.chars.vertical"@.len());
    assert("hydra.prefixes.prefix"@.len() != "graph.edges.chars.top-left"@.len());
    assert("hydra.prefixes.prefix"@.len() != "graph.edges.chars.top-right"@.len());
    assert("hydra.prefixes.prefix"@.len() != "graph.edges.chars.bottom-left"@.len());
    assert("hydra.prefixes.prefix"@.len() != "graph.edges.chars.bottom-right"@.len());
    assert("hydra.prefixes.prefix"@.len() != "graph.edges.chars.tee-right"@.len());
    assert("hydra.prefixes.prefix"@.len() != "graph.edges.chars.tee-left"@.len());
    assert("hydra.prefixes.prefix"@.len() != "graph.edges.chars.tee-down"@.len());
    assert("hydra.prefixes.prefix"@.len() != "graph.edges.chars.tee-up"@.len());
    assert("hydra.prefixes.prefix"@.len() != "graph.edges.chars.cross"@.len());
    assert("hydra.prefixes.prefix"@.len() != "graph.edges.chars.elision"@.len());
    assert("hydra.prefixes.prefix"@.len() != "graph.collapse"@.len());
    assert("hydra.prefixes.prefix"@.len() != "layout.dash"@.len());
    assert("hydra.prefixes.prefix"@.len() != "layout.dash-start"@.len());
    assert("hydra.prefixes.prefix"@.len() != "layout.dash-end"@.len());
    assert("hydra.prefixes.prefix"@.len() != "stream.enabled"@.len());
    assert("hydra.prefixes.prefix"@.len() != "stream.batch-size"@.len());
    assert("hydra.prefixes.prefix"@.len() != "colors.dash-filler"@.len());
    assert("hydra.prefixes.prefix"@.len() != "colors.graph-edge"@.len());
    assert("hydra.prefixes.prefix"@.len() != "hydra.enable"@.len());
    assert("hydra.prefixes.prefix"@.len() != "hydra.top-stack-padding"@.len());
    assert("hydra.prefixes.prefix"@.len() != "hydra.colors"@.len());
    assert("hydra.prefixes.prefix"@[6] != "hydra.color-bookmarks"@[6]);
    assert("hydra.prefixes.base"@.len() != "activate"@.len());
    assert("hydra.prefixes.base"@.len() != "pager"@.len());
    assert("hydra.prefixes.base"@.len() != "ui.color"@.len());
    assert("hydra.prefixes.base"@.len() != "graph.edges.chars.horizontal"@.len());
    assert("hydra.prefixes.base"@.len() != "graph.edges.chars.vertical"@.len());
    assert("hydra.prefixes.base"@.len() != "graph.edges.chars.top-left"@.len());
    assert("hydra.prefixes.base"@.len() != "graph.edges.chars.top-right"@.len());
    assert("hydra.prefixes.base"@.len() != "graph.edges.chars.bottom-left"@.len());
    assert("hydra.prefixes.base"@.len() != "graph.edges.chars.bottom-right"@.len());
    assert("hydra.prefixes.base"@.len() != "graph.edges.chars.tee-right"@.len());
    assert("hydra.prefixes.base"@.len() != "graph.edges.chars.tee-left"@.len());
    assert("hydra.prefixes.base"@.len() != "graph.edges.chars.tee-down"@.len());
    assert("hydra.prefixes.base"@.len() != "graph.edges.chars.tee-up"@.len());
    assert("hydra.prefixes.base"@.len() != "graph.edges.chars.cross"@.len());
    assert("hydra.prefixes.base"@.len() != "graph.edges.chars.elision"@.len());
    assert("hydra.prefixes.base"@.len() != "graph.collapse"@.len());
    assert("hydra.prefixes.base"@.len() != "layout.dash"@.len());
    assert("hydra.prefixes.base"@.len() != "layout.dash-start"@.len());
    assert("hydra.prefixes.base"@.len() != "layout.dash-end"@.len());
    assert("hydra.prefixes.base"@.len() != "stream.enabled"@.len());
    assert("hydra.prefixes.base"@.len() != "stream.batch-size"@.len());
    assert("hydra.prefixes.base"@.len() != "colors.dash-filler"@.len());
    assert("hydra.prefixes.base"@.len() != "colors.graph-edge"@.len());
    assert("hydra.prefixes.base"@.len() != "hydra.enable"@.len());
    assert("hydra.prefixes.base"@.len() != "hydra.top-stack-padding"@.len());
    assert("hydra.prefixes.base"@.len() != "hydra.colors"@.len());
    assert("hydra.prefixes.base"@.len() != "hydra.color-bookmarks"@.len());
    assert("hydra.prefixes.base"@.len() != "hydra.prefixes.prefix"@.len());
    assert("hydra.prefixes.head"@.len() != "activate"@.len());
    assert("hydra.prefixes.head"@.len() != "pager"@.len());
    assert("hydra.prefixes.head"@.len() != "ui.color"@.len());
    assert("hydra.prefixes.head"@.len() != "graph.edges.chars.horizontal"@.len());
    assert("hydra.prefixes.head"@.len() != "graph.edges.chars.vertical"@.len());
    assert("hydra.prefixes.head"@.len() != "graph.edges.chars.top-left"@.len());
    assert("hydra.prefixes.head"@.len() != "graph.edges.chars.top-right"@.len());
    assert("hydra.prefixes.head"@.len() != "graph.edges.chars.bottom-left"@.len());
    assert("hydra.prefixes.head"@.len() != "graph.edges.chars.bottom-right"@.len());
    assert("hydra.prefixes.head"@.len() != "graph.edges.chars.tee-right"@.len());
    assert("hydra.prefixes.head"@.len() != "graph.edges.chars.tee-left"@.len());
    assert("hydra.prefixes.head"@.len() != "graph.edges.chars.tee-down"@.len());
    assert("hydra.prefixes.head"@.len() != "graph.edges.chars.tee-up"@.len());
    assert("hydra.prefixes.head"@.len() != "graph.edges.chars.cross"@.len());
    assert("hydra.prefixes.head"@.len() != "graph.edges.chars.elision"@.len());
    assert("hydra.prefixes.head"@.len() != "graph.collapse"@.len());
    assert("hydra.prefixes.head"@.len() != "layout.dash"@.len());
    assert("hydra.prefixes.head"@.len() != "layout.dash-start"@.len());
    assert("hydra.prefixes.head"@.len() != "layout.dash-end"@.len());
    assert("hydra.prefixes.head"@.len() != "stream.enabled"@.len());
    assert("hydra.prefixes.head"@.len() != "stream.batch-size"@.len());
    assert("hydra.prefixes.head"@.len() != "colors.dash-filler"@.len());
    assert("hydra.prefixes.head"@.len() != "colors.graph-edge"@.len());
    assert("hydra.prefixes.head"@.len() != "hydra.enable"@.len());
    assert("hydra.prefixes.head"@.len() != "hydra.top-stack-padding"@.len());
    assert("hydra.prefixes.head"@.len() != "hydra.colors"@.len());
    assert("hydra.prefixes.head"@.len() != "hydra.color-bookmarks"@.len());
    assert("hydra.prefixes.head"@.len() != "hydra.prefixes.prefix"@.len());
    assert("hydra.prefixes.head"@[15] != "hydra.prefixes.base"@[15]);
    assert("hydra.prefixes.conflict-resolution"@.len() != "activate"@.len());
    assert("hydra.prefixes.conflict-resolution"@.len() != "pager"@.len());
    assert("hydra.prefixes.conflict-resolution"@.len() != "ui.color"@.len());
    assert("hydra.prefixes.conflict-resolution"@.len() != "graph.edges.chars.horizontal"@.len());
    assert("hydra.prefixes.conflict-resolution"@.len() != "graph.edges.chars.vertical"@.len());
    assert("hydra.prefixes.conflict-resolution"@.len() != "graph.edges.chars.top-left"@.len());
    assert("hydra.prefixes.conflict-resolution"@.len() != "graph.edges.chars.top-right"@.len());
    assert("hydra.prefixes.conflict-resolution"@.len() != "graph.edges.chars.bottom-left"@.len());
    assert("hydra.prefixes.conflict-resolution"@.len() != "graph.edges.chars.bottom-right"@.len());
    assert("hydra.prefixes.conflict-resolution"@.len() != "graph.edges.chars.tee-right"@.len());
    assert("hydra.prefixes.conflict-resolution"@.len() != "graph.edges.chars.tee-left"@.len());
    assert("hydra.prefixes.conflict-resolution"@.len() != "graph.edges.chars.tee-down"@.len());
    assert("hydra.prefixes.conflict-resolution"@.len() != "graph.edges.chars.tee-up"@.len());
    assert("hydra.prefixes.conflict-resolution"@.len() != "graph.edges.chars.cross"@.len());
    assert("hydra.prefixes.conflict-resolution"@.len() != "graph.edges.chars.elision"@.len());
    assert("hydra.prefixes.conflict-resolution"@.len() != "graph.collapse"@.len());
    assert("hydra.prefixes.conflict-resolution"@.len() != "layout.dash"@.len());
    assert("hydra.prefixes.conflict-resolution"@.len() != "layout.dash-start"@.len());
    assert("hydra.prefixes.conflict-resolution"@.len() != "layout.dash-end"@.len());
    assert("hydra.prefixes.conflict-resolution"@.len() != "stream.enabled"@.len());
    assert("hydra.prefixes.conflict-resolution"@.len() != "stream.batch-size"@.len());
    assert("hydra.prefixes.conflict-resolution"@.len() != "colors.dash-filler"@.len());
    assert("hydra.prefixes.conflict-resolution"@.len() != "colors.graph-edge"@.len());
    assert("hydra.prefixes.conflict-resolution"@.len() != "hydra.enable"@.len());
    assert("hydra.prefixes.conflict-resolution"@.len() != "hydra.top-stack-padding"@.len());
    assert("hydra.prefixes.conflict-resolution"@.len() != "hydra.colors"@.len());
    assert("hydra.prefixes.conflict-resolution"@.len() != "hydra.color-bookmarks"@.len());
    assert("hydra.prefixes.conflict-resolution"@.len() != "hydra.prefixes.prefix"@.len());
    assert("hydra.prefixes.conflict-resolution"@.len() != "hydra.prefixes.base"@.len());
    assert("hydra.prefixes.conflict-resolution"@.len() != "hydra.prefixes.head"@.len());
    assert("hydra.prefixes.stack-head"@.len() != "activate"@.len());
    assert("hydra.prefixes.stack-head"@.len() != "pager"@.len());
    assert("hydra.prefixes.stack-head"@.len() != "ui.color"@.len());
    assert("hydra.prefixes.stack-head"@.len() != "graph.edges.chars.horizontal"@.len());
    assert("hydra.prefixes.stack-head"@.len() != "graph.edges.chars.vertical"@.len());
    assert("hydra.prefixes.stack-head"@.len() != "graph.edges.chars.top-left"@.len());
    assert("hydra.prefixes.stack-head"@.len() != "graph.edges.chars.top-right"@.len());
    assert("hydra.prefixes.stack-head"@.len() != "graph.edges.chars.bottom-left"@.len());
    assert("hydra.prefixes.stack-head"@.len() != "graph.edges.chars.bottom-right"@.len());
    assert("hydra.prefixes.stack-head"@.len() != "graph.edges.chars.tee-right"@.len());
    assert("hydra.prefixes.stack-head"@.len() != "graph.edges.chars.tee-left"@.len());
    assert("hydra.prefixes.stack-head"@.len() != "graph.edges.chars.tee-down"@.len());
    assert("hydra.prefixes.stack-head"@.len() != "graph.edges.chars.tee-up"@.len());
    assert("hydra.prefixes.stack-head"@.len() != "graph.edges.chars.cross"@.len());
    assert("hydra.prefixes.stack-head"@[0] != "graph.edges.chars.elision"@[0]);
    assert("hydra.prefixes.stack-head"@.len() != "graph.collapse"@.len());
    assert("hydra.prefixes.stack-head"@.len() != "layout.dash"@.len());
    assert("hydra.prefixes.stack-head"@.len() != "layout.dash-start"@.len());
    assert("hydra.prefixes.stack-head"@.len() != "layout.dash-end"@.len());
    assert("hydra.prefixes.stack-head"@.len() != "stream.enabled"@.len());
    assert("hydra.prefixes.stack-head"@.len() != "stream.batch-size"@.len());
    assert("hydra.prefixes.stack-head"@.len() != "colors.dash-filler"@.len());
    assert("hydra.prefixes.stack-head"@.len() != "colors.graph-edge"@.len());
    assert("hydra.prefixes.stack-head"@.len() != "hydra.enable"@.len());
    assert("hydra.prefixes.stack-head"@.len() != "hydra.top-stack-padding"@.len());
    assert("hydra.prefixes.stack-head"@.len() != "hydra.colors"@.len());
    assert("hydra.prefixes.stack-head"@.len() != "hydra.color-bookmarks"@.len());
    assert("hydra.prefixes.stack-head"@.len() != "hydra.prefixes.prefix"@.len());
    assert("hydra.prefixes.stack-head"@.len() != "hydra.prefixes.base"@.len());
    assert("hydra.prefixes.stack-head"@.len() != "hydra.prefixes.head"@.len());
    assert("hydra.prefixes.stack-head"@.len() != "hydra.prefixes.conflict-resolution"@.len());
    assert("hydra.prefixes.stack-working-copy"@.len() != "activate"@.len());
    assert("hydra.prefixes.stack-working-copy"@.len() != "pager"@.len());
    assert("hydra.prefixes.stack-working-copy"@.len() != "ui.color"@.len());
    assert("hydra.prefixes.stack-working-copy"@.len() != "graph.edges.chars.horizontal"@.len());
    assert("hydra.prefixes.stack-working-copy"@.len() != "graph.edges.chars.vertical"@.len());
    assert("hydra.prefixes.stack-working-copy"@.len() != "graph.edges.chars.top-left"@.len());
    assert("hydra.prefixes.stack-working-copy"@.len() != "graph.edges.chars.top-right"@.len());
    assert("hydra.prefixes.stack-working-copy"@.len() != "graph.edges.chars.bottom-left"@.len());
    assert("hydra.prefixes.stack-working-copy"@.len() != "graph.edges.chars.bottom-right"@.len());
    assert("hydra.prefixes.stack-working-copy"@.len() != "graph.edges.chars.tee-right"@.len());
    assert("hydra.prefixes.stack-working-copy"@.len() != "graph.edges.chars.tee-left"@.len());
    assert("hydra.prefixes.stack-working-copy"@.len() != "graph.edges.chars.tee-down"@.len());
    assert("hydra.prefixes.stack-working-copy"@.len() != "graph.edges.chars.tee-up"@.len());
    assert("hydra.prefixes.stack-working-copy"@.len() != "graph.edges.chars.cross"@.len());
    assert("hydra.prefixes.stack-working-copy"@.len() != "graph.edges.chars.elision"@.len());
    assert("hydra.prefixes.stack-working-copy"@.len() != "graph.collapse"@.len());
    assert("hydra.prefixes.stack-working-copy"@.len() != "layout.dash"@.len());
    assert("hydra.prefixes.stack-working-copy"@.len() != "layout.dash-start"@.len());
    assert("hydra.prefixes.stack-working-copy"@.len() != "layout.dash-end"@.len());
    assert("hydra.prefixes.stack-working-copy"@.len() != "stream.enabled"@.len());
    assert("hydra.prefixes.stack-working-copy"@.len() != "stream.batch-size"@.len());
    assert("hydra.prefixes.stack-working-copy"@.len() != "colors.dash-filler"@.len());
    assert("hydra.prefixes.stack-working-copy"@.len() != "colors.graph-edge"@.len());
    assert("hydra.prefixes.stack-working-copy"@.len() != "hydra.enable"@.len());
    assert("hydra.prefixes.stack-working-copy"@.len() != "hydra.top-stack-padding"@.len());
    assert("hydra.prefixes.stack-working-copy"@.len() != "hydra.colors"@.len());
    assert("hydra.prefixes.stack-working-copy"@.len() != "hydra.color-bookmarks"@.len());
    assert("hydra.prefixes.stack-working-copy"@.len() != "hydra.prefixes.prefix"@.len());
    assert("hydra.prefixes.stack-working-copy"@.len() != "hydra.prefixes.base"@.len());
    assert("hydra.prefixes.stack-working-copy"@.len() != "hydra.prefixes.head"@.len());
    assert("hydra.prefixes.stack-working-copy"@.len() != "hydra.prefixes.conflict-resolution"@.len());
    assert("hydra.prefixes.stack-working-copy"@.len() != "hydra.prefixes.stack-head"@.len());
}

/// Each `hydra.prefixes-replace` key sets its own stand-in, leaving every other setting as it was.
#[verifier::rlimit(50)]
pub proof fn lemma_replace_keys(c: ConfigView, v: Seq<char>)
    ensures
        kv_spec(c, "hydra.prefixes-replace.prefix"@, v) == Some(Ok::<ConfigView, ValueErrorView>(ConfigView { hydra_prefixes_replace: HydraPrefixReplaceView { prefix: Some(v), ..c.hydra_prefixes_replace }, ..c })),
        kv_spec(c, "hydra.prefixes-replace.base"@, v) == Some(Ok::<ConfigView, ValueErrorView>(ConfigView { hydra_prefixes_replace: HydraPrefixReplaceView { base: Some(v), ..c.hydra_prefixes_replace }, ..c })),
        kv_spec(c, "hydra.prefixes-replace.head"@, v) == Some(Ok::<ConfigView, ValueErrorView>(ConfigView { hydra_prefixes_replace: HydraPrefixReplaceView { head: Some(v), ..c.hydra_prefixes_replace }, ..c })),
        kv_spec(c, "hydra.prefixes-replace.conflict-resolution"@, v) == Some(Ok::<ConfigView, ValueErrorView>(ConfigView { hydra_prefixes_replace: HydraPrefixReplaceView { conflict_resolution: Some(v), ..c.hydra_prefixes_replace }, ..c })),
        kv_spec(c, "hydra.prefixes-replace.stack-head"@, v) == Some(Ok::<ConfigView, ValueErrorView>(ConfigView { hydra_prefixes_replace: HydraPrefixReplaceView { stack_head: Some(v), ..c.hydra_prefixes_replace }, ..c })),
        kv_spec(c, "hydra.prefixes-replace.stack-working-copy"@, v) == Some(Ok::<ConfigView, ValueErrorView>(ConfigView { hydra_prefixes_replace: HydraPrefixReplaceView { stack_working_copy: Some(v), ..c.hydra_prefixes_replace }, ..c })),
{
    reveal(kv_spec);
    reveal_strlit("activate");
    reveal_strlit("pager");
    reveal_strlit("ui.color");
    reveal_strlit("graph.edges.chars.horizontal");
    reveal_strlit("graph.edges.chars.vertical");
    reveal_strlit("graph.edges.chars.top-left");
    reveal_strlit("graph.edges.chars.top-right");
    reveal_strlit("graph.edges.chars.bottom-left");
    reveal_strlit("graph.edges.chars.bottom-right");
    reveal_strlit("graph.edges.chars.tee-right");
    reveal_strlit("graph.edges.chars.tee-left");
    reveal_strlit("graph.edges.chars.tee-down");
    reveal_strlit("graph.edges.chars.tee-up");
    reveal_strlit("graph.edges.chars.cross");
    reveal_strlit("graph.edges.chars.elision");
    reveal_strlit("graph.collapse");
    reveal_strlit("layout.dash");
    reveal_strlit("layout.dash-start");
    reveal_strlit("layout.dash-end");
    reveal_strlit("stream.enabled");
    reveal_strlit("stream.batch-size");
    reveal_strlit("colors.dash-filler");
    reveal_strlit("colors.graph-edge");
    reveal_strlit("hydra.enable");
    reveal_strlit("hydra.top-stack-padding");
    reveal_strlit("hydra.colors");
    reveal_strlit("hydra.color-bookmarks");
    reveal_strlit("hydra.prefixes.prefix");
    reveal_strlit("hydra.prefixes.base");
    reveal_strlit("hydra.prefixes.head");
    reveal_strlit("hydra.prefixes.conflict-resolution");
    reveal_strlit("hydra.prefixes.stack-head");
    reveal_strlit("hydra.prefixes.stack-working-copy");
    reveal_strlit("hydra.prefixes-replace.prefix");
    reveal_strlit("hydra.prefixes-replace.base");
    reveal_strlit("hydra.prefixes-replace.head");
    reveal_strlit("hydra.prefixes-replace.conflict-resolution");
    reveal_strlit("hydra.prefixes-replace.stack-head");
    reveal_strlit("hydra.prefixes-replace.stack-working-copy");
    assert("hydra.prefixes-replace.prefix"@.len() != "activate"@.len());
    assert("hydra.prefixes-replace.prefix"@.len() != "pager"@.len());
    assert("hydra.prefixes-replace.prefix"@.len() != "ui.color"@.len());
    assert("hydra.prefixes-replace.prefix"@.len() != "graph.edges.chars.horizontal"@.len());
    assert("hydra.prefixes-replace.prefix"@.len() != "graph.edges.chars.vertical"@.len());
    assert("hydra.prefixes-replace.prefix"@.len() != "graph.edges.chars.top-left"@.len());
    assert("hydra.prefixes-replace.prefix"@.len() != "graph.edges.chars.top-right"@.len());
    assert("hydra.prefixes-replace.prefix"@[0] != "graph.edges.chars.bottom-left"@[0]);
    assert("hydra.prefixes-replace.prefix"@.len() != "graph.edges.chars.bottom-right"@.len());
    assert("hydra.prefixes-replace.prefix"@.len() != "graph.edges.chars.tee-right"@.len());
    assert("hydra.prefixes-replace.prefix"@.len() != "graph.edges.chars.tee-left"@.len());
    assert("hydra.prefixes-replace.prefix"@.len() != "graph.edges.chars.tee-down"@.len());
    assert("hydra.prefixes-replace.prefix"@.len() != "graph.edges.chars.tee-up"@.len());
    assert("hydra.prefixes-replace.prefix"@.len() != "graph.edges.chars.cross"@.len());
    assert("hydra.prefixes-replace.prefix"@.len() != "graph.edges.chars.elision"@.len());
    assert("hydra.prefixes-replace.prefix"@.len() != "graph.collapse"@.len());
    assert("hydra.prefixes-replace.prefix"@.len() != "layout.dash"@.len());
    assert("hydra.prefixes-replace.prefix"@.len() != "layout.dash-start"@.len());
    assert("hydra.prefixes-replace.prefix"@.len() != "layout.dash-end"@.len());
    assert("hydra.prefixes-replace.prefix"@.len() != "stream.enabled"@.len());
    assert("hydra.prefixes-replace.prefix"@.len() != "stream.batch-size"@.len());
    assert("hydra.prefixes-replace.prefix"@.len() != "colors.dash-filler"@.len());
    assert("hydra.prefixes-replace.prefix"@.len() != "colors.graph-edge"@.len());
    assert("hydra.prefixes-replace.prefix"@.len() != "hydra.enable"@.len());
    assert("hydra.prefixes-replace.prefix"@.len() != "hydra.top-stack-padding"@.len());
    assert("hydra.prefixes-replace.prefix"@.len() != "hydra.colors"@.len());
    assert("hydra.prefixes-replace.prefix"@.len() != "hydra.color-bookmarks"@.len());
    assert("hydra.prefixes-replace.prefix"@.len() != "hydra.prefixes.prefix"@.len());
    assert("hydra.prefixes-replace.prefix"@.len() != "hydra.prefixes.base"@.len());
    assert("hydra.prefixes-replace.prefix"@.len() != "hydra.prefixes.head"@.len());
    assert("hydra.prefixes-replace.prefix"@.len() != "hydra.prefixes.conflict-resolution"@.len());
    assert("hydra.prefixes-replace.prefix"@.len() != "hydra.prefixes.stack-head"@.len());
    assert("hydra.prefixes-replace.prefix"@.len() != "hydra.prefixes.stack-working-copy"@.len());
    assert("hydra.prefixes-replace.base"@.len() != "activate"@.len());
    assert("hydra.prefixes-replace.base"@.len() != "pager"@.len());
    assert("hydra.prefixes-replace.base"@.len() != "ui.color"@.len());
    assert("hydra.prefixes-replace.base"@.len() != "graph.edges.chars.horizontal"@.len());
    assert("hydra.prefixes-replace.base"@.len() != "graph.edges.chars.vertical"@.len());
    assert("hydra.prefixes-replace.base"@.len() != "graph.edges.chars.top-left"@.len());
    assert("hydra.prefixes-replace.base"@[0] != "graph.edges.chars.top-right"@[0]);
    assert("hydra.prefixes-replace.base"@.len() != "graph.edges.chars.bottom-left"@.len());
    assert("hydra.prefixes-replace.base"@.len() != "graph.edges.chars.bottom-right"@.len());
    assert("hydra.prefixes-replace.base"@[0] != "graph.edges.chars.tee-right"@[0]);
    assert("hydra.prefixes-replace.base"@.len() != "graph.edges.chars.tee-left"@.len());
    assert("hydra.prefixes-replace.base"@.len() != "graph.edges.chars.tee-down"@.len());
    assert("hydra.prefixes-replace.base"@.len() != "graph.edges.chars.tee-up"@.len());
    assert("hydra.prefixes-replace.base"@.len() != "graph.edges.chars.cross"@.len());
    assert("hydra.prefixes-replace.base"@.len() != "graph.edges.chars.elision"@.len());
    assert("hydra.prefixes-replace.base"@.len() != "graph.collapse"@.len());
    assert("hydra.prefixes-replace.base"@.len() != "layout.dash"@.len());
    assert("hydra.prefixes-replace.base"@.len() != "layout.dash-start"@.len());
    assert("hydra.prefixes-replace.base"@.len() != "layout.dash-end"@.len());
    assert("hydra.prefixes-replace.base"@.len() != "stream.enabled"@.len());
    assert("hydra.prefixes-replace.base"@.len() != "stream.batch-size"@.len());
    assert("hydra.prefixes-replace.base"@.len() != "colors.dash-filler"@.len());
    assert("hydra.prefixes-replace.base"@.len() != "colors.graph-edge"@.len());
    assert("hydra.prefixes-replace.base"@.len() != "hydra.enable"@.len());
    assert("hydra.prefixes-replace.base"@.len() != "hydra.top-stack-padding"@.len());
    assert("hydra.prefixes-replace.base"@.len() != "hydra.colors"@.len());
    assert("hydra.prefixes-replace.base"@.len() != "hydra.color-bookmarks"@.len());
    assert("hydra.prefixes-replace.base"@.len() != "hydra.prefixes.prefix"@.len());
    assert("hydra.prefixes-replace.base"@.len() != "hydra.prefixes.base"@.len());
    assert("hydra.prefixes-replace.base"@.len() != "hydra.prefixes.head"@.len());
    assert("hydra.prefixes-replace.base"@.len() != "hydra.prefixes.conflict-resolution"@.len());
    assert("hydra.prefixes-replace.base"@.len() != "hydra.prefixes.stack-head"@.len());
    assert("hydra.prefixes-replace.base"@.len() != "hydra.prefixes.stack-working-copy"@.len());
    assert("hydra.prefixes-replace.base"@.len() != "hydra.prefixes-replace.prefix"@.len());
    assert("hydra.prefixes-replace.head"@.len() != "activate"@.len());
    assert("hydra.prefixes-replace.head"@.len() != "pager"@.len());
    assert("hydra.prefixes-replace.head"@.len() != "ui.color"@.len());
    assert("hydra.prefixes-replace.head"@.len() != "graph.edges.chars.horizontal"@.len());
    assert("hydra.prefixes-replace.head"@.len() != "graph.edges.chars.vertical"@.len());
    assert("hydra.prefixes-replace.head"@.len() != "graph.edges.chars.top-left"@.len());
    assert("hydra.prefixes-replace.head"@[0] != "graph.edges.chars.top-right"@[0]);
    assert("hydra.prefixes-replace.head"@.len() != "graph.edges.chars.bottom-left"@.len());
    assert("hydra.prefixes-replace.head"@.len() != "graph.edges.chars.bottom-right"@.len());
    assert("hydra.prefixes-replace.head"@[0] != "graph.edges.chars.tee-right"@[0]);
    assert("hydra.prefixes-replace.head"@.len() != "graph.edges.chars.tee-left"@.len());
    assert("hydra.prefixes-replace.head"@.len() != "graph.edges.chars.tee-down"@.len());
    assert("hydra.prefixes-replace.head"@.len() != "graph.edges.chars.tee-up"@.len());
    assert("hydra.prefixes-replace.head"@.len() != "graph.edges.chars.cross"@.len());
    assert("hydra.prefixes-replace.head"@.len() != "graph.edges.chars.elision"@.len());
    assert("hydra.prefixes-replace.head"@.len() != "graph.collapse"@.len());
    assert("hydra.prefixes-replace.head"@.len() != "layout.dash"@.len());
    assert("hydra.prefixes-replace.head"@.len() != "layout.dash-start"@.len());
    assert("hydra.prefixes-replace.head"@.len() != "layout.dash-end"@.len());
    assert("hydra.prefixes-replace.head"@.len() != "stream.enabled"@.len());
    assert("hydra.prefixes-replace.head"@.len() != "stream.batch-size"@.len());
    assert("hydra.prefixes-replace.head"@.len() != "colors.dash-filler"@.len());
    assert("hydra.prefixes-replace.head"@.len() != "colors.graph-edge"@.len());
    assert("hydra.prefixes-replace.head"@.len() != "hydra.enable"@.len());
    assert("hydra.prefixes-replace.head"@.len() != "hydra.top-stack-padding"@.len());
    assert("hydra.prefixes-replace.head"@.len() != "hydra.colors"@.len());
    assert("hydra.prefixes-replace.head"@.len() != "hydra.color-bookmarks"@.len());
    assert("hydra.prefixes-replace.head"@.len() != "hydra.prefixes.prefix"@.len());
    assert("hydra.prefixes-replace.head"@.len() != "hydra.prefixes.base"@.len());
    assert("hydra.prefixes-replace.head"@.len() != "hydra.prefixes.head"@.len());
    assert("hydra.prefixes-replace.head"@.len() != "hydra.prefixes.conflict-resolution"@.len());
    assert("hydra.prefixes-replace.head"@.len() != "hydra.prefixes.stack-head"@.len());
    assert("hydra.prefixes-replace.head"@.len() != "hydra.prefixes.stack-working-copy"@.len());
    assert("hydra.prefixes-replace.head"@.len() != "hydra.prefixes-replace.prefix"@.len());
    assert("hydra.prefixes-replace.head"@[23] != "hydra.prefixes-replace.base"@[23]);
    assert("hydra.prefixes-replace.conflict-resolution"@.len() != "activate"@.len());
    assert("hydra.prefixes-replace.conflict-resolution"@.len() != "pager"@.len());
    assert("hydra.prefixes-replace.conflict-resolution"@.len() != "ui.color"@.len());
    assert("hydra.prefixes-replace.conflict-resolution"@.len() != "graph.edges.chars.horizontal"@.len());
    assert("hydra.prefixes-replace.conflict-resolution"@.len() != "graph.edges.chars.vertical"@.len());
    assert("hydra.prefixes-replace.conflict-resolution"@.len() != "graph.edges.chars.top-left"@.len());
    assert("hydra.prefixes-replace.conflict-resolution"@.len() != "graph.edges.chars.top-right"@.len());
    assert("hydra.prefixes-replace.conflict-resolution"@.len() != "graph.edges.chars.bottom-left"@.len());
    assert("hydra.prefixes-replace.conflict-resolution"@.len() != "graph.edges.chars.bottom-right"@.len());
    assert("hydra.prefixes-replace.conflict-resolution"@.len() != "graph.edges.chars.tee-right"@.len());
    assert("hydra.prefixes-replace.conflict-resolution"@.len() != "graph.edges.chars.tee-left"@.len());
    assert("hydra.prefixes-replace.conflict-resolution"@.len() != "graph.edges.chars.tee-down"@.len());
    assert("hydra.prefixes-replace.conflict-resolution"@.len() != "graph.edges.chars.tee-up"@.len());
    assert("hydra.prefixes-replace.conflict-resolution"@.len() != "graph.edges.chars.cross"@.len());
    assert("hydra.prefixes-replace.conflict-resolution"@.len() != "graph.edges.chars.elision"@.len());
    assert("hydra.prefixes-replace.conflict-resolution"@.len() != "graph.collapse"@.len());
    assert("hydra.prefixes-replace.conflict-resolution"@.len() != "layout.dash"@.len());
    assert("hydra.prefixes-replace.conflict-resolution"@.len() != "layout.dash-start"@.len());
    assert("hydra.prefixes-replace.conflict-resolution"@.len() != "layout.dash-end"@.len());
    assert("hydra.prefixes-replace.conflict-resolution"@.len() != "stream.enabled"@.len());
    assert("hydra.prefixes-replace.conflict-resolution"@.len() != "stream.batch-size"@.len());
    assert("hydra.prefixes-replace.conflict-resolution"@.len() != "colors.dash-filler"@.len());
    assert("hydra.prefixes-replace.conflict-resolution"@.len() != "colors.graph-edge"@.len());
    assert("hydra.prefixes-replace.conflict-resolution"@.len() != "hydra.enable"@.len());
    assert("hydra.prefixes-replace.conflict-resolution"@.len() != "hydra.top-stack-padding"@.len());
    assert("hydra.prefixes-replace.conflict-resolution"@.len() != "hydra.colors"@.len());
    assert("hydra.prefixes-replace.conflict-resolution"@.len() != "hydra.color-bookmarks"@.len());
    assert("hydra.prefixes-replace.conflict-resolution"@.len() != "hydra.prefixes.prefix"@.len());
    assert("hydra.prefixes-replace.conflict-resolution"@.len() != "hydra.prefixes.base"@.len());
    assert("hydra.prefixes-replace.conflict-resolution"@.len() != "hydra.prefixes.head"@.len());
    assert("hydra.prefixes-replace.conflict-resolution"@.len() != "hydra.prefixes.conflict-resolution"@.len());
    assert("hydra.prefixes-replace.conflict-resolution"@.len() != "hydra.prefixes.stack-head"@.len());
    assert("hydra.prefixes-replace.conflict-resolution"@.len() != "hydra.prefixes.stack-working-copy"@.len());
    assert("hydra.prefixes-replace.conflict-resolution"@.len() != "hydra.prefixes-replace.prefix"@.len());
    assert("hydra.prefixes-replace.conflict-resolution"@.len() != "hydra.prefixes-replace.base"@.len());
    assert("hydra.prefixes-replace.conflict-resolution"@.len() != "hydra.prefixes-replace.head"@.len());
    assert("hydra.prefixes-replace.stack-head"@.len() != "activate"@.len());
    assert("hydra.prefixes-replace.stack-head"@.len() != "pager"@.len());
    assert("hydra.prefixes-replace.stack-head"@.len() != "ui.color"@.len());
    assert("hydra.prefixes-replace.stack-head"@.len() != "graph.edges.chars.horizontal"@.len());
    assert("hydra.prefixes-replace.stack-head"@.len() != "graph.edges.chars.vertical"@.len());
    assert("hydra.prefixes-replace.stack-head"@.len() != "graph.edges.chars.top-left"@.len());
    assert("hydra.prefixes-replace.stack-head"@.len() != "graph.edges.chars.top-right"@.len());
    assert("hydra.prefixes-replace.stack-head"@.len() != "graph.edges.chars.bottom-left"@.len());
    assert("hydra.prefixes-replace.stack-head"@.len() != "graph.edges.chars.bottom-right"@.len());
    assert("hydra.prefixes-replace.stack-head"@.len() != "graph.edges.chars.tee-right"@.len());
    assert("hydra.prefixes-replace.stack-head"@.len() != "graph.edges.chars.tee-left"@.len());
    assert("hydra.prefixes-replace.stack-head"@.len() != "graph.edges.chars.tee-down"@.len());
    assert("hydra.prefixes-replace.stack-head"@.len() != "graph.edges.chars.tee-up"@.len());
    assert("hydra.prefixes-replace.stack-head"@.len() != "graph.edges.chars.cross"@.len());
    assert("hydra.prefixes-replace.stack-head"@.len() != "graph.edges.chars.elision"@.len());
    assert("hydra.prefixes-replace.stack-head"@.len() != "graph.collapse"@.len());
    assert("hydra.prefixes-replace.stack-head"@.len() != "layout.dash"@.len());
    assert("hydra.prefixes-replace.stack-head"@.len() != "layout.dash-start"@.len());
    assert("hydra.prefixes-replace.stack-head"@.len() != "layout.dash-end"@.len());
    assert("hydra.prefixes-replace.stack-head"@.len() != "stream.enabled"@.len());
    assert("hydra.prefixes-replace.stack-head"@.len() != "stream.batch-size"@.len());
    assert("hydra.prefixes-replace.stack-head"@.len() != "colors.dash-filler"@.len());
    assert("hydra.prefixes-replace.stack-head"@.len() != "colors.graph-edge"@.len());
    assert("hydra.prefixes-replace.stack-head"@.len() != "hydra.enable"@.len());
    assert("hydra.prefixes-replace.stack-head"@.len() != "hydra.top-stack-padding"@.len());
    assert("hydra.prefixes-replace.stack-head"@.len() != "hydra.colors"@.len());
    assert("hydra.prefixes-replace.stack-head"@.len() != "hydra.color-bookmarks"@.len());
    assert("hydra.prefixes-replace.stack-head"@.len() != "hydra.prefixes.prefix"@.len());
    assert("hydra.prefixes-replace.stack-head"@.len() != "hydra.prefixes.base"@.len());
    assert("hydra.prefixes-replace.stack-head"@.len() != "hydra.prefixes.head"@.len());
    assert("hydra.prefixes-replace.stack-head"@.len() != "hydra.prefixes.conflict-resolution"@.len());
    assert("hydra.prefixes-replace.stack-head"@.len() != "hydra.prefixes.stack-head"@.len());
    assert("hydra.prefixes-replace.stack-head"@[14] != "hydra.prefixes.stack-working-copy"@[14]);
    assert("hydra.prefixes-replace.stack-head"@.len() != "hydra.prefixes-replace.prefix"@.len());
    assert("hydra.prefixes-replace.stack-head"@.len() != "hydra.prefixes-replace.base"@.len());
    assert("hydra.prefixes-replace.stack-head"@.len() != "hydra.prefixes-replace.head"@.len());
    assert("hydra.prefixes-replace.stack-head"@.len() != "hydra.prefixes-replace.conflict-resolution"@.len());
    assert("hydra.prefixes-replace.stack-working-copy"@.len() != "activate"@.len());
    assert("hydra.prefixes-replace.stack-working-copy"@.len() != "pager"@.len());
    assert("hydra.prefixes-replace.stack-working-copy"@.len() != "ui.color"@.len());
    assert("hydra.prefixes-replace.stack-working-copy"@.len() != "graph.edges.chars.horizontal"@.len());
    assert("hydra.prefixes-replace.stack-working-copy"@.len() != "graph.edges.chars.vertical"@.len());
    assert("hydra.prefixes-replace.stack-working-copy"@.len() != "graph.edges.chars.top-left"@.len());
    assert("hydra.prefixes-replace.stack-working-copy"@.len() != "graph.edges.chars.top-right"@.len());
    assert("hydra.prefixes-replace.stack-working-copy"@.len() != "graph.edges.chars.bottom-left"@.len());
    assert("hydra.prefixes-replace.stack-working-copy"@.len() != "graph.edges.chars.bottom-right"@.len());
    assert("hydra.prefixes-replace.stack-working-copy"@.len() != "graph.edges.chars.tee-right"@.len());
    assert("hydra.prefixes-replace.stack-working-copy"@.len() != "graph.edges.chars.tee-left"@.len());
    assert("hydra.prefixes-replace.stack-working-copy"@.len() != "graph.edges.chars.tee-down"@.len());
    assert("hydra.prefixes-replace.stack-working-copy"@.len() != "graph.edges.chars.tee-up"@.len());
    assert("hydra.prefixes-replace.stack-working-copy"@.len() != "graph.edges.chars.cross"@.len());
    assert("hydra.prefixes-replace.stack-working-copy"@.len() != "graph.edges.chars.elision"@.len());
    assert("hydra.prefixes-replace.stack-working-copy"@.len() != "graph.collapse"@.len());
    assert("hydra.prefixes-replace.stack-working-copy"@.len() != "layout.dash"@.len());
    assert("hydra.prefixes-replace.stack-working-copy"@.len() != "layout.dash-start"@.len());
    assert("hydra.prefixes-replace.stack-working-copy"@.len() != "layout.dash-end"@.len());
    assert("hydra.prefixes-replace.stack-working-copy"@.len() != "stream.enabled"@.len());
    assert("hydra.prefixes-replace.stack-working-copy"@.len() != "stream.batch-size"@.len());
    assert("hydra.prefixes-replace.stack-working-copy"@.len() != "colors.dash-filler"@.len());
    assert("hydra.prefixes-replace.stack-working-copy"@.len() != "colors.graph-edge"@.len());
    assert("hydra.prefixes-replace.stack-working-copy"@.len() != "hydra.enable"@.len());
    assert("hydra.prefixes-replace.stack-working-copy"@.len() != "hydra.top-stack-padding"@.len());
    assert("hydra.prefixes-replace.stack-working-copy"@.len() != "hydra.colors"@.len());
    assert("hydra.prefixes-replace.stack-working-copy"@.len() != "hydra.color-bookmarks"@.len());
    assert("hydra.prefixes-replace.stack-working-copy"@.len() != "hydra.prefixes.prefix"@.len());
    assert("hydra.prefixes-replace.stack-working-copy"@.len() != "hydra.prefixes.base"@.len());
    assert("hydra.prefixes-replace.stack-working-copy"@.len() != "hydra.prefixes.head"@.len());
    assert("hydra.prefixes-replace.stack-working-copy"@.len() != "hydra.prefixes.conflict-resolution"@.len());
    assert("hydra.prefixes-replace.stack-working-copy"@.len() != "hydra.prefixes.stack-head"@.len());
    assert("hydra.prefixes-replace.stack-working-copy"@.len() != "hydra.prefixes.stack-working-copy"@.len());
    assert("hydra.prefixes-replace.stack-working-copy"@.len() != "hydra.prefixes-replace.prefix"@.len());
    assert("hydra.prefixes-replace.stack-working-copy"@.len() != "hydra.prefixes-replace.base"@.len());
    assert("hydra.prefixes-replace.stack-working-copy"@.len() != "hydra.prefixes-replace.head"@.len());
    assert("hydra.prefixes-replace.stack-working-copy"@.len() != "hydra.prefixes-replace.conflict-resolution"@.len());
    assert("hydra.prefixes-replace.stack-working-copy"@.len() != "hydra.prefixes-replace.stack-head"@.len());
}

/// `templates.<name>` sets the template called `name` (a flat name, no
/// dot) and leaves every other setting as it was; an empty or dotted name
/// is refused.
#[verifier::rlimit(50)]
pub proof fn lemma_template_key(c: ConfigView, name: Seq<char>, v: Seq<char>)
    ensures
        name.len() > 0 && !name.contains('.') ==> kv_spec(c, "templates."@ + name, v) == Some(
            Ok::<ConfigView, ValueErrorView>(ConfigView { templates: c.templates.insert(encode_utf8(name), v), ..c }),
        ),
        !(name.len() > 0 && !name.contains('.')) ==> kv_spec(c, "templates."@ + name, v) == Some(
            Err::<ConfigView, ValueErrorView>(ValueErrorView::TemplateNameNotFlat(encode_utf8("templates."@ + name))),
        ),
{
    reveal(kv_spec);
    reveal_strlit("templates.");
    let key = "templates."@ + name;
    assert(key[0] == 't');
    assert(key.subrange(0, 10) =~= "templates."@);
    assert(key.subrange(10, key.len() as int) =~= name);
    reveal_strlit("activate");
    assert(key[0] != "activate"@[0]);
    reveal_strlit("pager");
    assert(key[0] != "pager"@[0]);
    reveal_strlit("ui.color");
    assert(key[0] != "ui.color"@[0]);
    reveal_strlit("graph.edges.chars.horizontal");
    assert(key[0] != "graph.edges.chars.horizontal"@[0]);
    reveal_strlit("graph.edges.chars.vertical");
    assert(key[0] != "graph.edges.chars.vertical"@[0]);
    reveal_strlit("graph.edges.chars.top-left");
    assert(key[0] != "graph.edges.chars.top-left"@[0]);
    reveal_strlit("graph.edges.chars.top-right");
    assert(key[0] != "graph.edges.chars.top-right"@[0]);
    reveal_strlit("graph.edges.chars.bottom-left");
    assert(key[0] != "graph.edges.chars.bottom-left"@[0]);
    reveal_strlit("graph.edges.chars.bottom-right");
    assert(key[0] != "graph.edges.chars.bottom-right"@[0]);
    reveal_strlit("graph.edges.chars.tee-right");
    assert(key[0] != "graph.edges.chars.tee-right"@[0]);
    reveal_strlit("graph.edges.chars.tee-left");
    assert(key[0] != "graph.edges.chars.tee-left"@[0]);
    reveal_strlit("graph.edges.chars.tee-down");
    assert(key[0] != "graph.edges.chars.tee-down"@[0]);
    reveal_strlit("graph.edges.chars.tee-up");
    assert(key[0] != "graph.edges.chars.tee-up"@[0]);
    reveal_strlit("graph.edges.chars.cross");
    assert(key[0] != "graph.edges.chars.cross"@[0]);
    reveal_strlit("graph.edges.chars.elision");
    assert(key[0] != "graph.edges.chars.elision"@[0]);
    reveal_strlit("graph.collapse");
    assert(key[0] != "graph.collapse"@[0]);
    reveal_strlit("layout.dash");
    assert(key[0] != "layout.dash"@[0]);
    reveal_strlit("layout.dash-start");
    assert(key[0] != "layout.dash-start"@[0]);
    reveal_strlit("layout.dash-end");
    assert(key[0] != "layout.dash-end"@[0]);
    reveal_strlit("stream.enabled");
    assert(key[0] != "stream.enabled"@[0]);
    reveal_strlit("stream.batch-size");
    assert(key[0] != "stream.batch-size"@[0]);
    reveal_strlit("colors.dash-filler");
    assert(key[0] != "colors.dash-filler"@[0]);
    reveal_strlit("colors.graph-edge");
    assert(key[0] != "colors.graph-edge"@[0]);
    reveal_strlit("hydra.enable");
    assert(key[0] != "hydra.enable"@[0]);
    reveal_strlit("hydra.top-stack-padding");
    assert(key[0] != "hydra.top-stack-padding"@[0]);
    reveal_strlit("hydra.colors");
    assert(key[0] != "hydra.colors"@[0]);
    reveal_strlit("hydra.color-bookmarks");
    assert(key[0] != "hydra.color-bookmarks"@[0]);
    reveal_strlit("hydra.prefixes.prefix");
    assert(key[0] != "hydra.prefixes.prefix"@[0]);
    reveal_strlit("hydra.prefixes.base");
    assert(key[0] != "hydra.prefixes.base"@[0]);
    reveal_strlit("hydra.prefixes.head");
    assert(key[0] != "hydra.prefixes.head"@[0]);
    reveal_strlit("hydra.prefixes.conflict-resolution");
    assert(key[0] != "hydra.prefixes.conflict-resolution"@[0]);
    reveal_strlit("hydra.prefixes.stack-head");
    assert(key[0] != "hydra.prefixes.stack-head"@[0]);
    reveal_strlit("hydra.prefixes.stack-working-copy");
    assert(key[0] != "hydra.prefixes.stack-working-copy"@[0]);
    reveal_strlit("hydra.prefixes-replace.prefix");
    assert(key[0] != "hydra.prefixes-replace.prefix"@[0]);
    reveal_strlit("hydra.prefixes-replace.base");
    assert(key[0] != "hydra.prefixes-replace.base"@[0]);
    reveal_strlit("hydra.prefixes-replace.head");
    assert(key[0] != "hydra.prefixes-replace.head"@[0]);
    reveal_strlit("hydra.prefixes-replace.conflict-resolution");
    assert(key[0] != "hydra.prefixes-replace.conflict-resolution"@[0]);
    reveal_strlit("hydra.prefixes-replace.stack-head");
    assert(key[0] != "hydra.prefixes-replace.stack-head"@[0]);
    reveal_strlit("hydra.prefixes-replace.stack-working-copy");
    assert(key[0] != "hydra.prefixes-replace.stack-working-copy"@[0]);
    reveal_strlit("debug.force-screen-height");
    assert(key[0] != "debug.force-screen-height"@[0]);
}

// ---------------------------------------------------------------------------
// Environment

/// Byte-wise lexicographic order, as `String`'s `cmp` has it: `a` before
/// `b`.
pub open spec fn bytes_lt(a: Seq<u8>, b: Seq<u8>) -> bool
    decreases a.len(),
{
    if a.len() == 0 {
        b.len() > 0
    } else if b.len() == 0 {
        false
    } else if a[0] != b[0] {
        a[0] < b[0]
    } else {
        bytes_lt(a.drop_first(), b.drop_first())
    }
}

pub open spec fn key_lt(a: Seq<char>, b: Seq<char>) -> bool {
    bytes_lt(encode_utf8(a), encode_utf8(b))
}

/// Index of the first entry from `i` whose key sorts after `key`.
pub open spec fn first_after(s: Seq<(Seq<char>, Seq<char>)>, key: Seq<char>, i: int) -> int
    decreases s.len() - i,
{
    if i < 0 || i >= s.len() {
        s.len() as int
    } else if key_lt(key, s[i].0) {
        i
    } else {
        first_after(s, key, i + 1)
    }
}

/// The first `k` entries sorted by key, equal keys kept in order (a stable
/// sort, as `sort_by` on the keys does it).
pub open spec fn sorted_by_key(s: Seq<(Seq<char>, Seq<char>)>, k: int) -> Seq<(Seq<char>, Seq<char>)>
    decreases k,
{
    if k <= 0 {
        Seq::empty()
    } else {
        let prev = sorted_by_key(s, k - 1);
        prev.insert(first_after(prev, s[k - 1].0, 0), s[k - 1])
    }
}

pub open spec fn env_prefix() -> Seq<char> {
    "BIJJOU__"@
}

/// The variables among the first `k` whose names start `BIJJOU__`, in
/// order.
pub open spec fn bijjou_vars(vars: Seq<(Seq<char>, Seq<char>)>, k: int) -> Seq<(Seq<char>, Seq<char>)>
    decreases k,
{
    if k <= 0 {
        Seq::empty()
    } else if strip_prefix_of(vars[k - 1].0, env_prefix()) is Some {
        bijjou_vars(vars, k - 1).push(vars[k - 1])
    } else {
        bijjou_vars(vars, k - 1)
    }
}

/// The setting a variable spells: its name past `BIJJOU__` as a key (see
/// `env_key_to_config_key`), and its value.
pub open spec fn env_setting(var: (Seq<char>, Seq<char>)) -> (Seq<char>, Seq<char>) {
    let name = strip_prefix_of(var.0, env_prefix())->0;
    (lowercase(hyphens_for_underscores(dots_for_double_underscores(name))), var.1)
}

/// The settings the environment spells: the `BIJJOU__` variables sorted by
/// name, each read as a setting.
pub open spec fn env_settings(vars: Seq<(Seq<char>, Seq<char>)>) -> Seq<(Seq<char>, Seq<char>)> {
    let sorted = sorted_by_key(bijjou_vars(vars, vars.len() as int), bijjou_vars(vars, vars.len() as int).len() as int);
    Seq::new(sorted.len(), |i: int| env_setting(sorted[i]))
}

fn bytes_less(a: &[u8], b: &[u8]) -> (r: bool)
    ensures
        r == bytes_lt(a@, b@),
{
    let mut i: usize = 0;
    assert(a@.subrange(0, a@.len() as int) =~= a@);
    assert(b@.subrange(0, b@.len() as int) =~= b@);
    while i < a.len() && i < b.len() && a[i] == b[i]
        invariant
            i <= a@.len(),
            i <= b@.len(),
            bytes_lt(a@, b@) == bytes_lt(a@.subrange(i as int, a@.len() as int), b@.subrange(i as int, b@.len() as int)),
        decreases a@.len() - i,
    {
        let ghost sa = a@.subrange(i as int, a@.len() as int);
        let ghost sb = b@.subrange(i as int, b@.len() as int);
        assert(sa.drop_first() =~= a@.subrange(i + 1, a@.len() as int));
        assert(sb.drop_first() =~= b@.subrange(i + 1, b@.len() as int));
        i = i + 1;
    }
    if i == a.len() {
        i < b.len()
    } else if i == b.len() {
        false
    } else {
        a[i] < b[i]
    }
}

proof fn lemma_first_after_bounds(s: Seq<(Seq<char>, Seq<char>)>, key: Seq<char>, i: int)
    requires
        0 <= i <= s.len(),
    ensures
        i <= first_after(s, key, i) <= s.len(),
    decreases s.len() - i,
{
    if i < s.len() && !key_lt(key, s[i].0) {
        lemma_first_after_bounds(s, key, i + 1);
    }
}

proof fn lemma_bijjou_vars_prefixed(vars: Seq<(Seq<char>, Seq<char>)>, k: int)
    requires
        0 <= k <= vars.len(),
    ensures
        forall|j: int| 0 <= j < bijjou_vars(vars, k).len() ==> strip_prefix_of(
            #[trigger] bijjou_vars(vars, k)[j].0,
            env_prefix(),
        ) is Some,
    decreases k,
{
    if k > 0 {
        lemma_bijjou_vars_prefixed(vars, k - 1);
    }
}

proof fn lemma_sorted_prefixed(s: Seq<(Seq<char>, Seq<char>)>, k: int)
    requires
        0 <= k <= s.len(),
        forall|i: int| 0 <= i < s.len() ==> strip_prefix_of(#[trigger] s[i].0, env_prefix()) is Some,
    ensures
        sorted_by_key(s, k).len() == k,
        forall|j: int| 0 <= j < sorted_by_key(s, k).len() ==> strip_prefix_of(
            #[trigger] sorted_by_key(s, k)[j].0,
            env_prefix(),
        ) is Some,
    decreases k,
{
    if k > 0 {
        lemma_sorted_prefixed(s, k - 1);
        let prev = sorted_by_key(s, k - 1);
        lemma_first_after_bounds(prev, s[k - 1].0, 0);
        let p = first_after(prev, s[k - 1].0, 0);
        let cur = prev.insert(p, s[k - 1]);
        assert forall|j: int| 0 <= j < cur.len() implies strip_prefix_of(#[trigger] cur[j].0, env_prefix()) is Some by {
            if j < p {
                assert(cur[j] == prev[j]);
            } else if j > p {
                assert(cur[j] == prev[j - 1]);
            }
        }
    }
}

/// Sort settings by key, stably (see `sorted_by_key`).
fn sort_by_key(v: Vec<(String, String)>) -> (r: Vec<(String, String)>)
    ensures
        kv_pairs(r@) == sorted_by_key(kv_pairs(v@), v@.len() as int),
{
    let mut out: Vec<(String, String)> = Vec::new();
    let mut k: usize = 0;
    let ghost s = kv_pairs(v@);
    assert(kv_pairs(out@) =~= Seq::<(Seq<char>, Seq<char>)>::empty());
    while k < v.len()
        invariant
            k <= v@.len(),
            s == kv_pairs(v@),
            kv_pairs(out@) == sorted_by_key(s, k as int),
        decreases v@.len() - k,
    {
        let key = v[k].0.as_str().as_bytes();
        let ghost prev = kv_pairs(out@);
        let mut p: usize = 0;
        while p < out.len() && !bytes_less(key, out[p].0.as_str().as_bytes())
            invariant
                p <= out@.len(),
                prev == kv_pairs(out@),
                key@ == encode_utf8(s[k as int].0),
                first_after(prev, s[k as int].0, p as int) == first_after(prev, s[k as int].0, 0),
            decreases out@.len() - p,
        {
            p = p + 1;
        }
        let item = (v[k].0.clone(), v[k].1.clone());
        proof { lemma_first_after_bounds(prev, s[k as int].0, p as int); }
        out.insert(p, item);
        assert(kv_pairs(out@) =~= prev.insert(p as int, s[k as int]));
        k = k + 1;
    }
    out
}

impl Config {
    /// The settings of the environment (see `env_settings`); `vars` is the
    /// whole environment, name and value.
    pub fn env_settings(vars: &Vec<(String, String)>) -> (r: Vec<(String, String)>)
        ensures
            kv_pairs(r@) == env_settings(kv_pairs(vars@)),
    {
        let ghost a = kv_pairs(vars@);
        let mut picked: Vec<(String, String)> = Vec::new();
        let mut k: usize = 0;
        assert(kv_pairs(picked@) =~= Seq::<(Seq<char>, Seq<char>)>::empty());
        proof { reveal_strlit("BIJJOU__"); }
        while k < vars.len()
            invariant
                k <= vars@.len(),
                a == kv_pairs(vars@),
                kv_pairs(picked@) == bijjou_vars(a, k as int),
            decreases vars@.len() - k,
        {
            if strip_prefix(vars[k].0.as_str(), "BIJJOU__").is_some() {
                picked.push((vars[k].0.clone(), vars[k].1.clone()));
                assert(kv_pairs(picked@) =~= bijjou_vars(a, k as int + 1));
            }
            k = k + 1;
        }
        let sorted = sort_by_key(picked);
        let ghost ss = kv_pairs(sorted@);
        let mut out: Vec<(String, String)> = Vec::new();
        let mut i: usize = 0;
        proof {
            lemma_bijjou_vars_prefixed(a, a.len() as int);
            let b = bijjou_vars(a, a.len() as int);
            lemma_sorted_prefixed(b, b.len() as int);
        }
        assert(kv_pairs(out@) =~= Seq::new(0nat, |j: int| env_setting(ss[j])));
        while i < sorted.len()
            invariant
                i <= sorted@.len(),
                ss == kv_pairs(sorted@),
                ss == sorted_by_key(bijjou_vars(a, a.len() as int), bijjou_vars(a, a.len() as int).len() as int),
                kv_pairs(out@) == Seq::new(i as nat, |j: int| env_setting(ss[j])),
                forall|j: int| 0 <= j < ss.len() ==> strip_prefix_of(#[trigger] ss[j].0, env_prefix()) is Some,
            decreases sorted@.len() - i,
        {
            assert(strip_prefix_of(ss[i as int].0, env_prefix()) is Some);
            assert(ss[i as int] == (sorted@[i as int].0@, sorted@[i as int].1@));
            let name = match strip_prefix(sorted[i].0.as_str(), "BIJJOU__") {
                Some(t) => t,
                None => "",
            };
            let key = env_key_to_config_key(name);
            let value = sorted[i].1.clone();
            assert(env_setting(ss[i as int]) == (key@, value@));
            let ghost before = kv_pairs(out@);
            out.push((key, value));
            assert(kv_pairs(out@) =~= before.push(env_setting(ss[i as int])));
            i = i + 1;
            assert(kv_pairs(out@) =~= Seq::new(i as nat, |j: int| env_setting(ss[j])));
        }
        assert(kv_pairs(out@) =~= env_settings(a));
        out
    }
}

impl Config {
    /// Apply the environment's settings (see `env_settings`), each from
    /// `env`; the first one refused stops the run.
    pub fn apply_env(&mut self, vars: &Vec<(String, String)>) -> (r: Result<(), ConfigError>)
        requires
            old(self).wf(),
            !kvs_panic(old(self)@, env_settings(kv_pairs(vars@)), env_settings(kv_pairs(vars@)).len() as int),
        ensures
            final(self).wf(),
            ({
                let kvs = env_settings(kv_pairs(vars@));
                let run = kvs_run(old(self)@, kvs, kvs.len() as int);
                &&& final(self)@ == run.config
                &&& r is Ok <==> run.failed is None
                &&& r matches Err(e) ==> kv_error(e, final(self)@, kvs[run.failed->0].0, kvs[run.failed->0].1, encode_utf8("env"@))
            }),
    {
        let kvs = Config::env_settings(vars);
        self.apply_kvs(&kvs, "env")
    }

    /// `apply_env`, or `None` (the configuration untouched) when one of
    /// the settings reached would cut a colour inside a character.
    pub fn apply_env_checked(&mut self, vars: &Vec<(String, String)>) -> (r: Option<Result<(), ConfigError>>)
        requires
            old(self).wf(),
        ensures
            final(self).wf(),
            ({
                let kvs = env_settings(kv_pairs(vars@));
                let run = kvs_run(old(self)@, kvs, kvs.len() as int);
                &&& r is None <==> kvs_panic(old(self)@, kvs, kvs.len() as int)
                &&& r is None ==> final(self)@ == old(self)@
                &&& r matches Some(x) ==> {
                    &&& final(self)@ == run.config
                    &&& x is Ok <==> run.failed is None
                    &&& x matches Err(e) ==> kv_error(e, final(self)@, kvs[run.failed->0].0, kvs[run.failed->0].1, encode_utf8("env"@))
                }
            }),
    {
        let kvs = Config::env_settings(vars);
        if settings_panic(&kvs) {
            return None;
        }
        Some(self.apply_env(vars))
    }
}

// ---------------------------------------------------------------------------
// Where the file is

/// Where the configuration file is read from.
#[derive(Debug, PartialEq, Eq)]
pub enum ConfigLocation {
    /// `BIJJOU_CONFIG` names the file itself.
    File(String),
    /// `bijjou/config.toml` under `XDG_CONFIG_HOME`.
    ConfigHome(String),
    /// `.config/bijjou/config.toml` under `HOME`.
    Home(String),
}

pub enum ConfigLocationView {
    File(Seq<char>),
    ConfigHome(Seq<char>),
    Home(Seq<char>),
}

impl View for ConfigLocation {
    type V = ConfigLocationView;

    open spec fn view(&self) -> ConfigLocationView {
        match self {
            ConfigLocation::File(s) => ConfigLocationView::File(s@),
            ConfigLocation::ConfigHome(s) => ConfigLocationView::ConfigHome(s@),
            ConfigLocation::Home(s) => ConfigLocationView::Home(s@),
        }
    }
}

pub open spec fn opt_str(o: Option<&str>) -> Option<Seq<char>> {
    match o {
        Some(s) => Some(s@),
        None => None,
    }
}

pub open spec fn opt_location(o: Option<ConfigLocation>) -> Option<ConfigLocationView> {
    match o {
        Some(l) => Some(l@),
        None => None,
    }
}

/// A variable that is set to something.
pub open spec fn nonempty(v: Option<Seq<char>>) -> bool {
    v matches Some(s) && s.len() > 0
}

/// `BIJJOU_CONFIG` wins, then `XDG_CONFIG_HOME`, then `HOME`; a variable set
/// to the empty string counts as unset, and with none of them there is no
/// file to read.
pub open spec fn config_location_spec(
    explicit: Option<Seq<char>>,
    config_home: Option<Seq<char>>,
    home: Option<Seq<char>>,
) -> Option<ConfigLocationView> {
    if nonempty(explicit) {
        Some(ConfigLocationView::File(explicit->0))
    } else if nonempty(config_home) {
        Some(ConfigLocationView::ConfigHome(config_home->0))
    } else if nonempty(home) {
        Some(ConfigLocationView::Home(home->0))
    } else {
        None
    }
}

/// Where to read the configuration, from the values of `BIJJOU_CONFIG`,
/// `XDG_CONFIG_HOME` and `HOME` (see `config_location_spec`).
pub fn config_location(explicit: Option<&str>, config_home: Option<&str>, home: Option<&str>) -> (r: Option<
    ConfigLocation,
>)
    ensures
        opt_location(r) == config_location_spec(opt_str(explicit), opt_str(config_home), opt_str(home)),
{
    if let Some(p) = explicit {
        if !p.is_empty() {
            return Some(ConfigLocation::File(p.to_owned()));
        }
    }
    if let Some(p) = config_home {
        if !p.is_empty() {
            return Some(ConfigLocation::ConfigHome(p.to_owned()));
        }
    }
    if let Some(p) = home {
        if !p.is_empty() {
            return Some(ConfigLocation::Home(p.to_owned()));
        }
    }
    None
}

// ---------------------------------------------------------------------------
// Defaults and hydra naming

pub open spec fn no_replacements() -> HydraPrefixReplaceView {
    HydraPrefixReplaceView {
        prefix: None,
        base: None,
        head: None,
        conflict_resolution: None,
        stack_head: None,
        stack_working_copy: None,
    }
}

/// The built-in configuration.
pub open spec fn default_view() -> ConfigView {
    ConfigView {
        dash: DEFAULT_DASH@,
        dash_start: DEFAULT_DASH_START@,
        dash_end: DEFAULT_DASH_END@,
        graph_horizontal: DEFAULT_GRAPH_HORIZONTAL@,
        graph_vertical: DEFAULT_GRAPH_VERTICAL@,
        graph_top_left: DEFAULT_GRAPH_TOP_LEFT@,
        graph_top_right: DEFAULT_GRAPH_TOP_RIGHT@,
        graph_bottom_left: DEFAULT_GRAPH_BOTTOM_LEFT@,
        graph_bottom_right: DEFAULT_GRAPH_BOTTOM_RIGHT@,
        graph_tee_right: DEFAULT_GRAPH_TEE_RIGHT@,
        graph_tee_left: DEFAULT_GRAPH_TEE_LEFT@,
        graph_tee_down: DEFAULT_GRAPH_TEE_DOWN@,
        graph_tee_up: DEFAULT_GRAPH_TEE_UP@,
        graph_cross: DEFAULT_GRAPH_CROSS@,
        graph_elision: DEFAULT_GRAPH_ELISION@,
        graph_collapse: false,
        dim_on: default_dim(),
        edge_dim_on: default_dim(),
        activate: Activate::Always,
        pager: Pager::Auto,
        color: Color::Auto,
        stream_enabled: true,
        stream_batch_size: BatchSize::Fixed(DEFAULT_STREAM_BATCH_SIZE),
        debug_force_screen_height: None,
        templates: Map::empty().insert(DEFAULT_LOG_ONELINE_NAME.spec_bytes(), DEFAULT_LOG_ONELINE_BODY@),
        hydra_enable: true,
        hydra_top_stack_padding: true,
        hydra_colors: HydraColorsView::Hash,
        hydra_color_bookmarks: true,
        hydra_prefixes: default_prefixes(),
        hydra_prefixes_replace: no_replacements(),
    }
}

impl Default for Config {
    fn default() -> (r: Self)
        ensures
            r@ == default_view(),
            r.wf(),
    {
        let mut templates: ByteMap<String> = ByteMap::new();
        templates.insert(copy_bytes(DEFAULT_LOG_ONELINE_NAME.as_bytes()), String::from_str(DEFAULT_LOG_ONELINE_BODY));
        let r = Config {
            dash: String::from_str(DEFAULT_DASH),
            dash_start: String::from_str(DEFAULT_DASH_START),
            dash_end: String::from_str(DEFAULT_DASH_END),
            graph_horizontal: String::from_str(DEFAULT_GRAPH_HORIZONTAL),
            graph_vertical: String::from_str(DEFAULT_GRAPH_VERTICAL),
            graph_top_left: String::from_str(DEFAULT_GRAPH_TOP_LEFT),
            graph_top_right: String::from_str(DEFAULT_GRAPH_TOP_RIGHT),
            graph_bottom_left: String::from_str(DEFAULT_GRAPH_BOTTOM_LEFT),
            graph_bottom_right: String::from_str(DEFAULT_GRAPH_BOTTOM_RIGHT),
            graph_tee_right: String::from_str(DEFAULT_GRAPH_TEE_RIGHT),
            graph_tee_left: String::from_str(DEFAULT_GRAPH_TEE_LEFT),
            graph_tee_down: String::from_str(DEFAULT_GRAPH_TEE_DOWN),
            graph_tee_up: String::from_str(DEFAULT_GRAPH_TEE_UP),
            graph_cross: String::from_str(DEFAULT_GRAPH_CROSS),
            graph_elision: String::from_str(DEFAULT_GRAPH_ELISION),
            graph_collapse: false,
            dim_on: default_dim_on(),
            edge_dim_on: default_dim_on(),
            activate: Activate::Always,
            pager: Pager::Auto,
            color: Color::Auto,
            stream_enabled: true,
            stream_batch_size: BatchSize::Fixed(DEFAULT_STREAM_BATCH_SIZE),
            debug_force_screen_height: None,
            templates,
            hydra_enable: true,
            hydra_top_stack_padding: true,
            hydra_colors: HydraColors::Hash,
            hydra_color_bookmarks: true,
            hydra_prefixes: HydraPrefixes::default(),
            hydra_prefixes_replace: HydraPrefixReplace::default(),
        };
        assert(r.templates@.map_values(|s: String| s@) =~= Map::empty().insert(
            DEFAULT_LOG_ONELINE_NAME.spec_bytes(),
            DEFAULT_LOG_ONELINE_BODY@,
        ));
        r
    }
}

/// One bookmark's rendered leader: the whole-leader stand-in if that key is
/// set, else `prefix`'s stand-in with the rest of the leader kept behind
/// it, else nothing (the bookmark is left alone).
pub open spec fn leader_of(whole: Option<Seq<char>>, prefix: Option<Seq<char>>, rest: Seq<char>) -> Option<Seq<char>> {
    match (whole, prefix) {
        (Some(w), _) => Some(w),
        (None, Some(lead)) => Some(lead + rest),
        (None, None) => None,
    }
}

pub fn replace_leader(whole: &Option<String>, prefix: &Option<String>, rest: &str) -> (r: Option<String>)
    ensures
        opt_view(r) == leader_of(opt_view(*whole), opt_view(*prefix), rest@),
{
    match (whole, prefix) {
        (Some(w), _) => Some(w.clone()),
        (None, Some(lead)) => Some(String::from_str(lead.as_str()).concat(rest)),
        (None, None) => None,
    }
}

fn join(a: &String, b: &String, tail: &str) -> (r: String)
    ensures
        r@ == a@ + b@ + tail@,
{
    String::from_str(a.as_str()).concat(b.as_str()).concat(tail)
}

impl HydraPrefixes {
    /// `HYS-`: the marker bookmark that opens a stack.
    pub fn stack_marker(&self) -> (r: String)
        ensures
            r@ == self@.prefix + self@.stack_head + "-"@,
    {
        join(&self.prefix, &self.stack_head, "-")
    }

    /// `HYWC-`: a stack's working copy.
    pub fn working_copy(&self) -> (r: String)
        ensures
            r@ == self@.prefix + self@.stack_working_copy + "-"@,
    {
        join(&self.prefix, &self.stack_working_copy, "-")
    }

    /// `HYB`, `HYH`, `HYCR`: whole bookmark names, matched exactly.
    pub fn anchors(&self) -> (r: Vec<String>)
        ensures
            r@.len() == 3,
            r@[0]@ == self@.prefix + self@.base,
            r@[1]@ == self@.prefix + self@.head,
            r@[2]@ == self@.prefix + self@.conflict_resolution,
    {
        proof { reveal_strlit(""); }
        let mut v: Vec<String> = Vec::new();
        v.push(join(&self.prefix, &self.base, ""));
        v.push(join(&self.prefix, &self.head, ""));
        v.push(join(&self.prefix, &self.conflict_resolution, ""));
        assert(self@.prefix + self@.base + ""@ =~= self@.prefix + self@.base);
        assert(self@.prefix + self@.head + ""@ =~= self@.prefix + self@.head);
        assert(self@.prefix + self@.conflict_resolution + ""@ =~= self@.prefix + self@.conflict_resolution);
        v
    }

    /// What `HYS-` reads as under `hydra.prefixes-replace`.
    pub fn stack_marker_replace(&self, r: &HydraPrefixReplace) -> (o: Option<String>)
        ensures
            opt_view(o) == leader_of(r@.stack_head, r@.prefix, self@.stack_head + "-"@),
    {
        let rest = String::from_str(self.stack_head.as_str()).concat("-");
        replace_leader(&r.stack_head, &r.prefix, rest.as_str())
    }

    /// What `HYWC-` reads as under `hydra.prefixes-replace`.
    pub fn working_copy_replace(&self, r: &HydraPrefixReplace) -> (o: Option<String>)
        ensures
            opt_view(o) == leader_of(r@.stack_working_copy, r@.prefix, self@.stack_working_copy + "-"@),
    {
        let rest = String::from_str(self.stack_working_copy.as_str()).concat("-");
        replace_leader(&r.stack_working_copy, &r.prefix, rest.as_str())
    }

    /// What `HYB`, `HYH`, `HYCR` read as, in the order `anchors` gives them.
    pub fn anchors_replace(&self, r: &HydraPrefixReplace) -> (o: Vec<Option<String>>)
        ensures
            o@.len() == 3,
            opt_view(o@[0]) == leader_of(r@.base, r@.prefix, self@.base),
            opt_view(o@[1]) == leader_of(r@.head, r@.prefix, self@.head),
            opt_view(o@[2]) == leader_of(r@.conflict_resolution, r@.prefix, self@.conflict_resolution),
    {
        let mut v: Vec<Option<String>> = Vec::new();
        v.push(replace_leader(&r.base, &r.prefix, self.base.as_str()));
        v.push(replace_leader(&r.head, &r.prefix, self.head.as_str()));
        v.push(replace_leader(&r.conflict_resolution, &r.prefix, self.conflict_resolution.as_str()));
        v
    }
}

} // verus!

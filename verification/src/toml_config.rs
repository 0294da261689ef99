use vstd::prelude::*;
use vstd::string::{StringExecFns, StrSliceExecFns, StringSliceAdditionalSpecFns};
use vstd::utf8::encode_utf8;
use crate::config::{
    default_view, kv_error, kv_pairs, kvs_panic, kvs_run, settings_panic, Config, ConfigError,
};
use crate::bytes::copy_bytes;

verus! {

broadcast use vstd::std_specs::vec::axiom_vec_decreases_to_view;

#[verifier::external_type_specification]
#[verifier::external_body]
pub struct ExTomlValue(toml::Value);

/// A value of a TOML document, as the configuration reads it: a float by
/// its decimal text; a date-time, which no setting takes, by nothing.
#[derive(Debug)]
pub enum TomlItem {
    Str(String),
    Int(i64),
    Bool(bool),
    Float(String),
    Datetime,
    Array(Vec<TomlItem>),
    Table(Vec<(String, TomlItem)>),
}

// ---------------------------------------------------------------------------
// Reading the text

/// What `toml` reads `text` as: the top-level table's entries in the order
/// its map lists them, or the parser's message.
pub uninterp spec fn toml_document(text: Seq<char>) -> Result<Seq<(String, TomlItem)>, Seq<char>>;

pub open spec fn parsed_view(r: Result<Vec<(String, TomlItem)>, String>) -> Result<Seq<(String, TomlItem)>, Seq<char>> {
    match r {
        Ok(v) => Ok(v@),
        Err(m) => Err(m@),
    }
}

/// One value as `toml` parsed it, as a `TomlItem`: variant for variant, a
/// float by its decimal text (`to_string`), arrays and tables item by item
/// in the order they come. Nothing is stated of the result: it only feeds
/// `parse_toml`, whose result is named.
#[verifier::external_body]
fn item_of(v: toml::Value) -> TomlItem {
    match v {
        toml::Value::String(s) => TomlItem::Str(s),
        toml::Value::Integer(i) => TomlItem::Int(i),
        toml::Value::Float(f) => TomlItem::Float(f.to_string()),
        toml::Value::Boolean(b) => TomlItem::Bool(b),
        toml::Value::Datetime(_) => TomlItem::Datetime,
        toml::Value::Array(a) => TomlItem::Array(a.into_iter().map(item_of).collect()),
        toml::Value::Table(t) => TomlItem::Table(t.into_iter().map(|(k, v)| (k, item_of(v))).collect()),
    }
}

/// `text.parse::<toml::Table>()`: the document's top-level entries in the
/// order the crate's map walks them (by key; in document order under its
/// `preserve_order` feature), or the parse error's message. The result is
/// a function of the text alone; what it is for a given text is not spelled
/// out here.
#[verifier::external_body]
fn parse_toml(text: &str) -> (r: Result<Vec<(String, TomlItem)>, String>)
    ensures
        parsed_view(r) == toml_document(text@),
{
    match text.parse::<toml::Table>() {
        Ok(t) => Ok(t.into_iter().map(|(k, v)| (k, item_of(v))).collect()),
        Err(e) => Err(e.to_string()),
    }
}

// ---------------------------------------------------------------------------
// Flattening

/// The text of `n` in decimal, no sign.
pub open spec fn decimal_chars(n: nat) -> Seq<char>
    decreases n,
{
    if n < 10 {
        seq![(n + 48) as char]
    } else {
        decimal_chars(n / 10).push(((n % 10) + 48) as char)
    }
}

/// `i.to_string()`.
pub open spec fn int_text(i: int) -> Seq<char> {
    if i < 0 { seq!['-'] + decimal_chars((-i) as nat) } else { decimal_chars(i as nat) }
}

/// `prefix.k`, or `k` at the top.
pub open spec fn dotted(prefix: Seq<char>, k: Seq<char>) -> Seq<char> {
    if prefix.len() == 0 { k } else { prefix + seq!['.'] + k }
}

/// A scalar's text, the way every setting is spelled; `None` for a
/// date-time, an array or a table.
pub open spec fn scalar_text(v: TomlItem) -> Option<Seq<char>> {
    match v {
        TomlItem::Str(s) => Some(s@),
        TomlItem::Int(i) => Some(int_text(i as int)),
        TomlItem::Bool(b) => Some(if b { "true"@ } else { "false"@ }),
        TomlItem::Float(f) => Some(f@),
        _ => None,
    }
}

/// The first `k` items joined by commas; `None` when one is no scalar.
pub open spec fn joined(items: Seq<TomlItem>, k: int) -> Option<Seq<char>>
    decreases k,
{
    if k <= 0 {
        Some(Seq::empty())
    } else {
        match (joined(items, k - 1), scalar_text(items[k - 1])) {
            (Some(j), Some(t)) => Some(if k == 1 { t } else { j + seq![','] + t }),
            _ => None,
        }
    }
}

/// Why a document holds no settings: a date-time, or an array of more than
/// scalars, at this key.
pub enum TomlRefusal {
    Datetime(Seq<char>),
    NonScalarArray(Seq<char>),
}

/// The settings a table's entries spell under `prefix`, in order: a scalar
/// at its dotted key, a table's entries under its key, an array as its
/// scalars joined by commas. The first date-time, or array holding more than
/// scalars, refuses the whole document.
pub open spec fn flat(prefix: Seq<char>, entries: Seq<(String, TomlItem)>) -> Result<Seq<(Seq<char>, Seq<char>)>, TomlRefusal>
    decreases entries,
{
    if entries.len() == 0 {
        Ok(Seq::empty())
    } else {
        let key = dotted(prefix, entries[0].0@);
        let head = match entries[0].1 {
            TomlItem::Table(t) => {
                proof {
                    assert(decreases_to!(entries => entries[0]));
                }
                flat(key, t@)
            },
            TomlItem::Array(items) => match joined(items@, items@.len() as int) {
                Some(s) => Ok(seq![(key, s)]),
                None => Err(TomlRefusal::NonScalarArray(key)),
            },
            TomlItem::Datetime => Err(TomlRefusal::Datetime(key)),
            v => Ok(seq![(key, scalar_text(v)->0)]),
        };
        match head {
            Err(e) => Err(e),
            Ok(h) => match flat(prefix, entries.drop_first()) {
                Ok(rest) => Ok(h + rest),
                Err(e) => Err(e),
            },
        }
    }
}

fn digit_str(d: u64) -> (r: &'static str)
    requires
        d < 10,
    ensures
        r@ == seq![(d + 48) as char],
{
    proof {
        reveal_strlit("0");
        reveal_strlit("1");
        reveal_strlit("2");
        reveal_strlit("3");
        reveal_strlit("4");
        reveal_strlit("5");
        reveal_strlit("6");
        reveal_strlit("7");
        reveal_strlit("8");
        reveal_strlit("9");
    }
    match d {
        0 => "0",
        1 => "1",
        2 => "2",
        3 => "3",
        4 => "4",
        5 => "5",
        6 => "6",
        7 => "7",
        8 => "8",
        _ => "9",
    }
}

fn push_decimal_chars(out: &mut String, n: u64)
    ensures
        final(out)@ == old(out)@ + decimal_chars(n as nat),
    decreases n,
{
    if n >= 10 {
        push_decimal_chars(out, n / 10);
    }
    out.append(digit_str(n % 10));
    assert(final(out)@ =~= old(out)@ + decimal_chars(n as nat));
}

/// `i.to_string()`.
pub fn int_string(i: i64) -> (r: String)
    ensures
        r@ == int_text(i as int),
{
    let mut out = String::new();
    if i < 0 {
        out.append("-");
        proof { reveal_strlit("-"); }
        let m: u64 = if i == i64::MIN { 0x8000_0000_0000_0000 } else { (-i) as u64 };
        push_decimal_chars(&mut out, m);
    } else {
        push_decimal_chars(&mut out, i as u64);
    }
    assert(out@ =~= int_text(i as int));
    out
}

pub open spec fn opt_string(o: Option<String>) -> Option<Seq<char>> {
    match o {
        Some(s) => Some(s@),
        None => None,
    }
}

/// A scalar's text (see `scalar_text`).
pub fn scalar_string(v: &TomlItem) -> (r: Option<String>)
    ensures
        opt_string(r) == scalar_text(*v),
{
    proof {
        reveal_strlit("true");
        reveal_strlit("false");
    }
    match v {
        TomlItem::Str(s) => Some(s.clone()),
        TomlItem::Int(i) => Some(int_string(*i)),
        TomlItem::Bool(b) => Some(if *b { String::from_str("true") } else { String::from_str("false") }),
        TomlItem::Float(f) => Some(f.clone()),
        _ => None,
    }
}

/// An array's scalars joined by commas (see `joined`).
pub fn join_scalars(items: &Vec<TomlItem>) -> (r: Option<String>)
    ensures
        opt_string(r) == joined(items@, items@.len() as int),
{
    let mut out = String::new();
    let mut k: usize = 0;
    while k < items.len()
        invariant
            k <= items@.len(),
            joined(items@, k as int) == Some(out@),
        decreases items@.len() - k,
    {
        let ghost before = out@;
        match scalar_string(&items[k]) {
            Some(t) => {
                if k > 0 {
                    out.append(",");
                    proof { reveal_strlit(","); }
                }
                out.append(t.as_str());
                assert(out@ =~= if k == 0 { t@ } else { before + seq![','] + t@ });
            },
            None => {
                proof { lemma_joined_none(items@, k as int + 1, items@.len() as int); }
                return None;
            },
        }
        k = k + 1;
        assert(joined(items@, k as int) == Some(out@));
    }
    Some(out)
}

proof fn lemma_joined_none(items: Seq<TomlItem>, j: int, k: int)
    requires
        0 <= j <= k,
        joined(items, j) is None,
    ensures
        joined(items, k) is None,
    decreases k,
{
    if j < k {
        lemma_joined_none(items, j, k - 1);
    }
}

/// The error a refusal is reported as, naming its key.
pub open spec fn refused_as(e: ConfigError, t: TomlRefusal) -> bool {
    match t {
        TomlRefusal::Datetime(k) => e matches ConfigError::Datetime(b) && b@ == encode_utf8(k),
        TomlRefusal::NonScalarArray(k) => e matches ConfigError::NonScalarArray(b) && b@ == encode_utf8(k),
    }
}

pub open spec fn pairs_view(v: Seq<(String, String)>) -> Seq<(Seq<char>, Seq<char>)> {
    Seq::new(v.len(), |i: int| (v[i].0@, v[i].1@))
}

/// `done` followed by what `r` flattens to, or `r`'s refusal.
pub open spec fn glue(
    done: Seq<(Seq<char>, Seq<char>)>,
    r: Result<Seq<(Seq<char>, Seq<char>)>, TomlRefusal>,
) -> Result<Seq<(Seq<char>, Seq<char>)>, TomlRefusal> {
    match r {
        Ok(rest) => Ok(done + rest),
        Err(e) => Err(e),
    }
}

fn dotted_string(prefix: &str, k: &str) -> (r: String)
    ensures
        r@ == dotted(prefix@, k@),
{
    if prefix.unicode_len() == 0 {
        String::from_str(k)
    } else {
        let mut s = String::from_str(prefix);
        s.append(".");
        s.append(k);
        proof { reveal_strlit("."); }
        assert(s@ =~= dotted(prefix@, k@));
        s
    }
}

/// Append the settings `entries` spell under `prefix` to `out` (see
/// `flat`); on a refusal, report it.
pub fn flatten_into(prefix: &str, entries: &Vec<(String, TomlItem)>, out: &mut Vec<(String, String)>) -> (r: Result<(), ConfigError>)
    ensures
        match flat(prefix@, entries@) {
            Ok(kvs) => r is Ok && pairs_view(final(out)@) == pairs_view(old(out)@) + kvs,
            Err(t) => r matches Err(e) && refused_as(e, t),
        },
    decreases entries@,
{
    let n = entries.len();
    let ghost o0 = pairs_view(out@);
    let ghost mut done: Seq<(Seq<char>, Seq<char>)> = Seq::empty();
    let mut i: usize = 0;
    assert(entries@.subrange(0, n as int) =~= entries@);
    assert(o0 + done =~= o0);
    while i < n
        invariant
            n == entries@.len(),
            i <= n,
            pairs_view(out@) == o0 + done,
            flat(prefix@, entries@) == glue(done, flat(prefix@, entries@.subrange(i as int, n as int))),
        decreases n - i,
    {
        let ghost sub = entries@.subrange(i as int, n as int);
        assert(sub[0] == entries@[i as int]);
        assert(sub.drop_first() =~= entries@.subrange(i + 1, n as int));
        let key = dotted_string(prefix, entries[i].0.as_str());
        let ghost before = pairs_view(out@);
        let ghost mut h: Seq<(Seq<char>, Seq<char>)> = Seq::empty();
        match &entries[i].1 {
            TomlItem::Table(t) => {
                proof {
                    assert(decreases_to!(entries@ => entries@[i as int]));
                }
                match flatten_into(key.as_str(), t, out) {
                    Ok(()) => {
                        proof { h = flat(key@, t@)->Ok_0; }
                    },
                    Err(e) => {
                        return Err(e);
                    },
                }
            },
            TomlItem::Array(items) => match join_scalars(items) {
                Some(s) => {
                    proof { h = seq![(key@, s@)]; }
                    out.push((key, s));
                    assert(pairs_view(out@) =~= before + h);
                },
                None => {
                    return Err(ConfigError::NonScalarArray(copy_bytes(key.as_str().as_bytes())));
                },
            },
            TomlItem::Datetime => {
                return Err(ConfigError::Datetime(copy_bytes(key.as_str().as_bytes())));
            },
            v => {
                let t = match scalar_string(v) {
                    Some(t) => t,
                    None => String::new(),
                };
                proof { h = seq![(key@, t@)]; }
                out.push((key, t));
                assert(pairs_view(out@) =~= before + h);
            },
        }
        proof {
            assert(flat(prefix@, sub) == glue(h, flat(prefix@, sub.drop_first())));
            assert(pairs_view(out@) =~= o0 + (done + h));
            assert(glue(done, glue(h, flat(prefix@, sub.drop_first()))) == glue(done + h, flat(prefix@, sub.drop_first()))) by {
                match flat(prefix@, sub.drop_first()) {
                    Ok(rest) => { assert(done + (h + rest) =~= (done + h) + rest); },
                    Err(_) => {},
                }
            }
            done = done + h;
        }
        i = i + 1;
    }
    assert(entries@.subrange(n as int, n as int) =~= Seq::<(String, TomlItem)>::empty());
    assert(done + Seq::<(Seq<char>, Seq<char>)>::empty() =~= done);
    Ok(())
}

// ---------------------------------------------------------------------------
// Loading

/// Some setting of a parsed document would cut a colour inside a character
/// when applied.
pub open spec fn toml_panics(p: Result<Seq<(String, TomlItem)>, Seq<char>>) -> bool {
    match p {
        Ok(entries) => match flat(Seq::empty(), entries) {
            Ok(kvs) => kvs_panic(default_view(), kvs, kvs.len() as int),
            Err(_) => false,
        },
        Err(_) => false,
    }
}

/// `r` is what a parsed document makes of the built-in configuration: a
/// parse error refuses it with the parser's message, a refusal of `flat`
/// with its key; else the settings are applied in order (with no source
/// named) and the first one refused is reported.
pub open spec fn toml_result(r: Result<Config, ConfigError>, p: Result<Seq<(String, TomlItem)>, Seq<char>>) -> bool {
    match p {
        Err(m) => r matches Err(ConfigError::Toml(b)) && b@ == encode_utf8(m),
        Ok(entries) => match flat(Seq::empty(), entries) {
            Err(t) => r matches Err(e) && refused_as(e, t),
            Ok(kvs) => {
                let run = kvs_run(default_view(), kvs, kvs.len() as int);
                match r {
                    Ok(c) => c.wf() && run.failed is None && c@ == run.config,
                    Err(e) => run.failed is Some && kv_error(
                        e,
                        run.config,
                        kvs[run.failed->0].0,
                        kvs[run.failed->0].1,
                        Seq::empty(),
                    ),
                }
            },
        },
    }
}

impl Config {
    /// The configuration a parsed TOML document spells (see `toml_result`).
    pub fn from_toml_parsed(parsed: &Result<Vec<(String, TomlItem)>, String>) -> (r: Result<Config, ConfigError>)
        requires
            !toml_panics(parsed_view(*parsed)),
        ensures
            toml_result(r, parsed_view(*parsed)),
    {
        let entries = match parsed {
            Ok(e) => e,
            Err(m) => {
                return Err(ConfigError::Toml(copy_bytes(m.as_str().as_bytes())));
            },
        };
        let mut kvs: Vec<(String, String)> = Vec::new();
        let ghost k0 = kvs@;
        proof {
            reveal_strlit("");
            assert(""@ =~= Seq::<char>::empty());
        }
        match flatten_into("", entries, &mut kvs) {
            Ok(()) => {},
            Err(e) => {
                proof { reveal_strlit(""); }
                return Err(e);
            },
        }
        proof {
            reveal_strlit("");
            assert(kv_pairs(kvs@) =~= pairs_view(kvs@));
            assert(pairs_view(k0) =~= Seq::<(Seq<char>, Seq<char>)>::empty());
            assert(pairs_view(kvs@) =~= flat(Seq::empty(), entries@)->Ok_0);
        }
        let mut c = Config::default();
        match c.apply_kvs(&kvs, "") {
            Ok(()) => Ok(c),
            Err(e) => Err(e),
        }
    }

    /// Read a configuration file's text: what `from_toml_parsed` makes of
    /// the document `toml` reads.
    pub fn from_toml(text: &str) -> (r: Result<Config, ConfigError>)
        requires
            !toml_panics(toml_document(text@)),
        ensures
            toml_result(r, toml_document(text@)),
    {
        let parsed = parse_toml(text);
        Config::from_toml_parsed(&parsed)
    }

    /// `from_toml`, or `None` when one of the document's settings would cut
    /// a colour inside a character.
    pub fn from_toml_checked(text: &str) -> (r: Option<Result<Config, ConfigError>>)
        ensures
            r is None <==> toml_panics(toml_document(text@)),
            r matches Some(x) ==> toml_result(x, toml_document(text@)),
    {
        let parsed = parse_toml(text);
        if toml_parsed_panics(&parsed) {
            None
        } else {
            Some(Config::from_toml(text))
        }
    }
}

/// Whether applying a parsed document would cut a colour inside a
/// character (see `toml_panics`).
pub fn toml_parsed_panics(parsed: &Result<Vec<(String, TomlItem)>, String>) -> (r: bool)
    ensures
        r == toml_panics(parsed_view(*parsed)),
{
    let entries = match parsed {
        Ok(e) => e,
        Err(_) => {
            return false;
        },
    };
    let mut kvs: Vec<(String, String)> = Vec::new();
    let ghost k0 = kvs@;
    proof {
        reveal_strlit("");
        assert(""@ =~= Seq::<char>::empty());
    }
    match flatten_into("", entries, &mut kvs) {
        Ok(()) => {},
        Err(_) => {
            proof { reveal_strlit(""); }
            return false;
        },
    }
    proof {
        reveal_strlit("");
        assert(pairs_view(k0) =~= Seq::<(Seq<char>, Seq<char>)>::empty());
        assert(pairs_view(kvs@) =~= flat(Seq::empty(), entries@)->Ok_0);
    }
    assert(kv_pairs(kvs@) =~= pairs_view(kvs@));
    settings_panic(&kvs)
}

} // verus!

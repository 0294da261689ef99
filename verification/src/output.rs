use vstd::prelude::*;
use vstd::string::StringSliceAdditionalSpecFns;
use crate::ansi::{strip_sgr, strip_sgr_from};
use crate::bytes::push_all;
use crate::config::{Color, Pager};
use crate::bytes::copy_bytes;
use crate::text::{trim_bytes, trimmed, ws_len_at, ws_len_at_exec};

verus! {

/// Whether output is coloured: `always` and `never` say so; `auto` colours
/// a terminal.
pub open spec fn color_on(color: Color, is_tty: bool) -> bool {
    match color {
        Color::Always => true,
        Color::Never => false,
        Color::Auto => is_tty,
    }
}

/// See `color_on`; `is_tty` is whether standard output is a terminal.
pub fn color_enabled(color: Color, is_tty: bool) -> (r: bool)
    ensures
        r == color_on(color, is_tty),
{
    match color {
        Color::Always => true,
        Color::Never => false,
        Color::Auto => is_tty,
    }
}

/// The bytes written out for `buf`: as they are when colour is on, else
/// with every SGR sequence taken out.
pub fn write_output(buf: &[u8], color_on: bool, out: &mut Vec<u8>)
    ensures
        final(out)@ == old(out)@ + if color_on { buf@ } else { strip_sgr_from(buf@, 0) },
{
    if color_on {
        push_all(out, buf);
    } else {
        let stripped = strip_sgr(buf);
        push_all(out, stripped.as_slice());
    }
}

/// A `PAGER` value that names a command: set, and not blank.
pub open spec fn pager_named(var: Option<Seq<u8>>) -> bool {
    var matches Some(v) && trimmed(v).len() > 0
}

/// Whether the output goes through the pager: never with `never`; with
/// `always` whenever `PAGER` names one; with `auto` only on a terminal.
pub open spec fn pages(pager: Pager, is_tty: bool, var: Option<Seq<u8>>) -> bool {
    match pager {
        Pager::Never => false,
        Pager::Always => pager_named(var),
        Pager::Auto => is_tty && pager_named(var),
    }
}

pub open spec fn opt_str_bytes(o: Option<&str>) -> Option<Seq<u8>> {
    match o {
        Some(s) => Some(s.spec_bytes()),
        None => None,
    }
}

/// Whether `PAGER` names a command (see `pager_named`).
pub fn pager_is_set(var: Option<&str>) -> (r: bool)
    ensures
        r == pager_named(opt_str_bytes(var)),
{
    match var {
        Some(v) => trim_bytes(v.as_bytes()).len() > 0,
        None => false,
    }
}

/// See `pages`; `var` is the `PAGER` environment variable.
pub fn wants_pager(pager: Pager, is_tty: bool, var: Option<&str>) -> (r: bool)
    ensures
        r == pages(pager, is_tty, opt_str_bytes(var)),
{
    match pager {
        Pager::Never => false,
        Pager::Always => pager_is_set(var),
        Pager::Auto => is_tty && pager_is_set(var),
    }
}

/// The words of `s[i..]`, split on `White_Space` (as `split_whitespace`
/// splits), the word under way starting at `start`.
pub open spec fn words_from(s: Seq<u8>, i: int, start: int) -> Seq<Seq<u8>>
    decreases s.len() - i,
{
    if i < 0 || i >= s.len() {
        if 0 <= start < s.len() { seq![s.subrange(start, s.len() as int)] } else { Seq::empty() }
    } else if ws_len_at(s, i) > 0 {
        (if start < i { seq![s.subrange(start, i)] } else { Seq::empty() }) + words_from(
            s,
            i + ws_len_at(s, i),
            i + ws_len_at(s, i),
        )
    } else {
        words_from(s, i + 1, start)
    }
}

pub open spec fn words_view(v: Seq<Vec<u8>>) -> Seq<Seq<u8>> {
    Seq::new(v.len(), |k: int| v[k]@)
}

/// The pager's command line split into its program and arguments.
pub fn pager_words(cmd: &str) -> (r: Vec<Vec<u8>>)
    ensures
        words_view(r@) == words_from(cmd.spec_bytes(), 0, 0),
{
    let s = cmd.as_bytes();
    let n = s.len();
    let mut out: Vec<Vec<u8>> = Vec::new();
    let mut i: usize = 0;
    let mut start: usize = 0;
    assert(words_view(out@) =~= Seq::<Seq<u8>>::empty());
    while i < n
        invariant
            n == s@.len(),
            start <= i <= n,
            words_view(out@) + words_from(s@, i as int, start as int) == words_from(s@, 0, 0),
        decreases n - i,
    {
        let w = ws_len_at_exec(s, i);
        if w > 0 {
            let ghost before = words_view(out@);
            if start < i {
                out.push(copy_bytes(&s[start..i]));
            }
            assert(words_view(out@) =~= before + (if start < i { seq![s@.subrange(start as int, i as int)] } else {
                Seq::<Seq<u8>>::empty()
            }));
            assert(i + w <= n);
            i = i + w;
            start = i;
        } else {
            i = i + 1;
        }
    }
    let ghost before = words_view(out@);
    if start < n {
        out.push(copy_bytes(&s[start..n]));
    }
    assert(words_view(out@) =~= before + words_from(s@, n as int, start as int));
    out
}

} // verus!

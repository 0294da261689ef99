use vstd::prelude::*;
use vstd::utf8::valid_utf8;
use vstd::string::StringSliceAdditionalSpecFns;
use crate::bytes::push_all;
use crate::text::{utf8_str, parse_u16, u16_text};

verus! {

/// `ESC [ 39 m`: reset the foreground colour.
pub const FG_RESET: [u8; 5] = [0x1b, 0x5b, 0x33, 0x39, 0x6d];

/// U+1D640, jj's marker for an empty commit.
pub const EMPTY_MARKER: u32 = 0x1D640;
pub const EMPTY_MARKER_BYTES: [u8; 4] = [0xf0, 0x9d, 0x99, 0x80];
/// U+1D644, jj's marker for an immutable commit.
pub const IMMUTABLE_MARKER: u32 = 0x1D644;
pub const IMMUTABLE_MARKER_BYTES: [u8; 4] = [0xf0, 0x9d, 0x99, 0x84];

pub open spec fn fg_reset() -> Seq<u8> {
    seq![0x1bu8, 0x5bu8, 0x33u8, 0x39u8, 0x6du8]
}

/// A CSI final byte: `@` through `~`.
pub open spec fn is_csi_final(b: u8) -> bool {
    0x40 <= b <= 0x7e
}

/// Index just past the first CSI final byte at or after `j`, or the end of
/// the buffer when none follows.
pub open spec fn csi_scan(s: Seq<u8>, j: int) -> int
    decreases s.len() - j,
{
    if j >= s.len() {
        s.len() as int
    } else if is_csi_final(s[j]) {
        j + 1
    } else {
        csi_scan(s, j + 1)
    }
}

/// `ESC [` starts at `i`.
pub open spec fn is_csi_start(s: Seq<u8>, i: int) -> bool {
    0 <= i && i + 1 < s.len() && s[i] == 0x1b && s[i + 1] == 0x5b
}

/// Where the CSI sequence starting at `i` ends (exclusive), if one starts there.
pub open spec fn csi_end(s: Seq<u8>, i: int) -> Option<int> {
    if is_csi_start(s, i) { Some(csi_scan(s, i + 2)) } else { None }
}

pub proof fn lemma_csi_scan_bounds(s: Seq<u8>, j: int)
    requires
        0 <= j <= s.len(),
    ensures
        j < csi_scan(s, j) <= s.len() || (j == s.len() && csi_scan(s, j) == s.len()),
        j <= csi_scan(s, j) <= s.len(),
    decreases s.len() - j,
{
    if j < s.len() && !is_csi_final(s[j]) {
        lemma_csi_scan_bounds(s, j + 1);
    }
}

pub proof fn lemma_csi_end_bounds(s: Seq<u8>, i: int)
    requires
        csi_end(s, i) is Some,
    ensures
        i + 2 <= csi_end(s, i).unwrap() <= s.len(),
{
    lemma_csi_scan_bounds(s, i + 2);
}

/// Skip an ANSI CSI escape (`ESC [ params final`) starting at `i`: the index
/// just past it, or `None` when no escape starts at `i`. An escape missing
/// its final byte runs to the end of the buffer.
pub fn skip_csi(bytes: &[u8], i: usize) -> (r: Option<usize>)
    ensures
        match r {
            Some(end) => csi_end(bytes@, i as int) == Some(end as int),
            None => csi_end(bytes@, i as int) is None,
        },
        r matches Some(end) ==> i + 2 <= end <= bytes@.len(),
{
    if i >= bytes.len() || i + 1 >= bytes.len() || bytes[i] != 0x1b || bytes[i + 1] != 0x5b {
        return None;
    }
    let mut j = i + 2;
    while j < bytes.len()
        invariant
            i + 2 <= j <= bytes.len(),
            is_csi_start(bytes@, i as int),
            csi_scan(bytes@, i + 2) == csi_scan(bytes@, j as int),
        decreases bytes.len() - j,
    {
        let b = bytes[j];
        if 0x40 <= b && b <= 0x7e {
            assert(is_csi_final(bytes@[j as int]));
            assert(csi_scan(bytes@, j as int) == j + 1);
            return Some(j + 1);
        }
        j += 1;
    }
    Some(j)
}

/// The codepoint decoded at `i` and the number of bytes it takes. Bytes are
/// read leniently: a lead byte's width is taken on trust (continuation bits
/// are not checked), a stray continuation byte or a sequence cut short by
/// the end of the buffer counts as one byte standing for itself.
pub open spec fn decode_at(s: Seq<u8>, i: int) -> (u32, int) {
    let b = s[i];
    if b < 0x80 {
        (b as u32, 1)
    } else if b < 0xc0 {
        (b as u32, 1)
    } else if b < 0xe0 && i + 1 < s.len() {
        ((((b & 0x1f) as u32) << 6u32) | ((s[i + 1] & 0x3f) as u32), 2)
    } else if b < 0xf0 && i + 2 < s.len() {
        ((((b & 0x0f) as u32) << 12u32) | (((s[i + 1] & 0x3f) as u32) << 6u32) | ((s[i + 2]
            & 0x3f) as u32), 3)
    } else if i + 3 < s.len() {
        ((((b & 0x07) as u32) << 18u32) | (((s[i + 1] & 0x3f) as u32) << 12u32) | (((s[i + 2]
            & 0x3f) as u32) << 6u32) | ((s[i + 3] & 0x3f) as u32), 4)
    } else {
        (b as u32, 1)
    }
}

pub proof fn lemma_decode_at_len(s: Seq<u8>, i: int)
    requires
        0 <= i < s.len(),
    ensures
        1 <= decode_at(s, i).1 <= 4,
        i + decode_at(s, i).1 <= s.len(),
        s[i] == 0x20 ==> decode_at(s, i) == (0x20u32, 1int),
        s[i] < 0x80 ==> decode_at(s, i) == (s[i] as u32, 1int),
{
}

/// On a well-formed UTF-8 scalar the lenient reading is the standard one:
/// the same scalar and the same length.
pub proof fn lemma_decode_agrees(s: Seq<u8>, i: int)
    requires
        0 <= i < s.len(),
        vstd::utf8::valid_first_scalar(s.subrange(i, s.len() as int)),
    ensures
        decode_at(s, i) == (
            vstd::utf8::decode_first_scalar(s.subrange(i, s.len() as int)),
            vstd::utf8::length_of_first_scalar(s.subrange(i, s.len() as int)),
        ),
{
    let sub = s.subrange(i, s.len() as int);
    let b = s[i];
    assert(sub[0] == b);
    if sub.len() > 1 {
        assert(sub[1] == s[i + 1]);
    }
    if sub.len() > 2 {
        assert(sub[2] == s[i + 2]);
    }
    if sub.len() > 3 {
        assert(sub[3] == s[i + 3]);
    }
    if b < 0x80 {
        assert(b & 0x7f == b) by (bit_vector)
            requires
                b < 0x80,
        ;
    }
}

/// Decode one UTF-8 codepoint starting at `i` (see `decode_at`).
pub fn decode_utf8(bytes: &[u8], i: usize) -> (r: (u32, usize))
    requires
        i < bytes@.len(),
    ensures
        (r.0, r.1 as int) == decode_at(bytes@, i as int),
        1 <= r.1 <= 4,
        i + r.1 <= bytes@.len(),
{
    let b = bytes[i];
    if b < 0x80 {
        return (b as u32, 1);
    }
    if b < 0xc0 {
        return (b as u32, 1);
    }
    if b < 0xe0 && bytes.len() - i > 1 {
        let cp = ((b & 0x1f) as u32) << 6 | (bytes[i + 1] & 0x3f) as u32;
        return (cp, 2);
    }
    if b < 0xf0 && bytes.len() - i > 2 {
        let cp = ((b & 0x0f) as u32) << 12 | ((bytes[i + 1] & 0x3f) as u32) << 6 | (bytes[i + 2]
            & 0x3f) as u32;
        return (cp, 3);
    }
    if bytes.len() - i > 3 {
        let cp = ((b & 0x07) as u32) << 18 | ((bytes[i + 1] & 0x3f) as u32) << 12 | ((bytes[i + 2]
            & 0x3f) as u32) << 6 | (bytes[i + 3] & 0x3f) as u32;
        return (cp, 4);
    }
    (b as u32, 1)
}

/// Index of the first `;` in `p`, or its length when there is none.
pub open spec fn semicolon_at(p: Seq<u8>) -> int
    decreases p.len(),
{
    if p.len() == 0 {
        0
    } else if p[0] == 59 {
        0
    } else {
        1 + semicolon_at(p.subrange(1, p.len() as int))
    }
}

/// The first `;`-separated parameter.
pub open spec fn first_param(p: Seq<u8>) -> Seq<u8> {
    p.subrange(0, semicolon_at(p))
}

/// The parameters after the first `;`, if there is one.
pub open spec fn after_first_param(p: Seq<u8>) -> Option<Seq<u8>> {
    if semicolon_at(p) < p.len() {
        Some(p.subrange(semicolon_at(p) + 1, p.len() as int))
    } else {
        None
    }
}

/// An SGR parameter list that sets the foreground colour: `30`-`37`, `39`,
/// `90`-`97`, or `38;5;…` / `38;2;…`. The first parameter is read as a
/// `u16`; text that is not one counts as no colour at all.
pub open spec fn fg_color_params(p: Seq<u8>) -> bool {
    let code = match u16_text(first_param(p)) {
        Some(n) => n,
        None => 999,
    };
    if (30 <= code <= 37) || code == 39 || (90 <= code <= 97) {
        true
    } else if code == 38 {
        match after_first_param(p) {
            Some(rest) => first_param(rest) == seq![53u8] || first_param(rest) == seq![50u8],
            None => false,
        }
    } else {
        false
    }
}

proof fn lemma_semicolon_at(p: Seq<u8>)
    ensures
        0 <= semicolon_at(p) <= p.len(),
        semicolon_at(p) < p.len() ==> p[semicolon_at(p)] == 59,
        forall|k: int| 0 <= k < semicolon_at(p) ==> p[k] != 59,
    decreases p.len(),
{
    if p.len() > 0 && p[0] != 59 {
        let q = p.subrange(1, p.len() as int);
        lemma_semicolon_at(q);
        assert forall|k: int| 0 <= k < semicolon_at(p) implies p[k] != 59 by {
            if k > 0 {
                assert(p[k] == q[k - 1]);
            }
        }
    }
}

proof fn lemma_semicolon_unique(p: Seq<u8>, j: int)
    requires
        0 <= j <= p.len(),
        j < p.len() ==> p[j] == 59,
        forall|k: int| 0 <= k < j ==> p[k] != 59,
    ensures
        semicolon_at(p) == j,
    decreases p.len(),
{
    if p.len() > 0 && p[0] != 59 {
        lemma_semicolon_unique(p.subrange(1, p.len() as int), j - 1);
    }
}

/// Index of the first `;` in `p`, or its length.
fn find_semicolon(p: &[u8]) -> (r: usize)
    ensures
        r as int == semicolon_at(p@),
{
    let mut j: usize = 0;
    while j < p.len()
        invariant
            j <= p.len(),
            forall|k: int| 0 <= k < j ==> p@[k] != 59,
        decreases p.len() - j,
    {
        if p[j] == 59 {
            proof { lemma_semicolon_unique(p@, j as int); }
            return j;
        }
        j = j + 1;
    }
    proof { lemma_semicolon_unique(p@, j as int); }
    j
}

/// The bytes-level form of `is_fg_color_sgr`.
pub fn is_fg_color_sgr_bytes(p: &[u8]) -> (r: bool)
    ensures
        r == fg_color_params(p@),
{
    proof { lemma_semicolon_at(p@); }
    let semi = find_semicolon(p);
    let first = &p[0..semi];
    let code: u16 = match parse_u16(first) {
        Some(n) => n,
        None => 999,
    };
    if (30 <= code && code <= 37) || code == 39 || (90 <= code && code <= 97) {
        true
    } else if code == 38 {
        if semi < p.len() {
            let rest = &p[semi + 1..p.len()];
            proof { lemma_semicolon_at(rest@); }
            let semi2 = find_semicolon(rest);
            let second = &rest[0..semi2];
            let r = second.len() == 1 && (second[0] == 53 || second[0] == 50);
            assert(r ==> (second@ =~= seq![53u8] || second@ =~= seq![50u8]));
            r
        } else {
            false
        }
    } else {
        false
    }
}

/// True when an SGR parameter list (the text between `ESC [` and `m`) sets
/// the foreground colour.
pub fn is_fg_color_sgr(params: &str) -> (r: bool)
    ensures
        r == fg_color_params(params.spec_bytes()),
{
    is_fg_color_sgr_bytes(params.as_bytes())
}

/// An SGR parameter list that drops out of a filtered copy: well-formed
/// UTF-8 that sets the foreground colour (anything else reads as an empty
/// list, which sets nothing).
pub open spec fn drops_fg(p: Seq<u8>) -> bool {
    valid_utf8(p) && fg_color_params(p)
}

/// True when the CSI sequence `s[i..end]` is an SGR (`… m`).
pub open spec fn is_sgr_seq(s: Seq<u8>, end: int) -> bool {
    end > 0 && s[end - 1] == 0x6d
}

/// `bytes[i..]` copied with every foreground-colour SGR dropped; every other
/// byte and escape passes through.
pub open spec fn filtered_from(s: Seq<u8>, i: int) -> Seq<u8>
    decreases s.len() - i,
{
    if i < 0 || i >= s.len() {
        Seq::empty()
    } else {
        match csi_end(s, i) {
            Some(end) => {
                let kept = if is_sgr_seq(s, end) && drops_fg(s.subrange(i + 2, end - 1)) {
                    Seq::empty()
                } else {
                    s.subrange(i, end)
                };
                if i < end <= s.len() { kept + filtered_from(s, end) } else { Seq::empty() }
            },
            None => seq![s[i]] + filtered_from(s, i + 1),
        }
    }
}

pub open spec fn filtered(s: Seq<u8>) -> Seq<u8> {
    filtered_from(s, 0)
}

/// The parameter lists of the SGR sequences (CSI escapes ending in `m`) in
/// `s[i..]`, in order.
pub open spec fn sgr_params_from(s: Seq<u8>, i: int) -> Seq<Seq<u8>>
    decreases s.len() - i,
{
    if i < 0 || i >= s.len() {
        Seq::empty()
    } else {
        match csi_end(s, i) {
            Some(end) => if i < end <= s.len() {
                (if is_sgr_seq(s, end) { seq![s.subrange(i + 2, end - 1)] } else { Seq::empty() })
                    + sgr_params_from(s, end)
            } else {
                Seq::empty()
            },
            None => sgr_params_from(s, i + 1),
        }
    }
}

/// What a filter is asked about an SGR: its parameter text, or the empty
/// text when the parameters are not well-formed UTF-8.
pub open spec fn sgr_arg(p: Seq<u8>) -> Seq<u8> {
    if valid_utf8(p) { p } else { Seq::empty() }
}

/// `filter` answered `d` about parameters `p`: asked with their text (see
/// `sgr_arg`), it returned `d`.
pub open spec fn answered<F: Fn(&str) -> bool>(filter: F, p: Seq<u8>, d: bool) -> bool {
    exists|t: &str| #[trigger] t.spec_bytes() == sgr_arg(p) && call_ensures(filter, (t,), d)
}

/// `s[i..]` copied with the SGR sequences dropped that `drops` marks, one
/// mark per SGR in order; every other byte and escape passes through.
pub open spec fn filtered_by_from(s: Seq<u8>, i: int, drops: Seq<bool>) -> Seq<u8>
    decreases s.len() - i,
{
    if i < 0 || i >= s.len() {
        Seq::empty()
    } else {
        match csi_end(s, i) {
            Some(end) => if i < end <= s.len() {
                if is_sgr_seq(s, end) {
                    let kept = if drops.len() > 0 && drops[0] { Seq::empty() } else { s.subrange(i, end) };
                    let rest = if drops.len() > 0 { drops.subrange(1, drops.len() as int) } else { drops };
                    kept + filtered_by_from(s, end, rest)
                } else {
                    s.subrange(i, end) + filtered_by_from(s, end, drops)
                }
            } else {
                Seq::empty()
            },
            None => seq![s[i]] + filtered_by_from(s, i + 1, drops),
        }
    }
}

/// Append `bytes` to `out`, asking `filter` about each SGR sequence in turn
/// (with its parameter text, see `sgr_arg`) and dropping those it answers
/// true for; every other byte and escape is kept in order.
pub fn emit_filtered_ansi<F: Fn(&str) -> bool>(bytes: &[u8], out: &mut Vec<u8>, filter: F)
    requires
        forall|t: &str| call_requires(filter, (t,)),
    ensures
        exists|drops: Seq<bool>|
            #![trigger filtered_by_from(bytes@, 0, drops)]
            {
                &&& drops.len() == sgr_params_from(bytes@, 0).len()
                &&& forall|k: int|
                    0 <= k < drops.len() ==> #[trigger] answered(filter, sgr_params_from(bytes@, 0)[k], drops[k])
                &&& final(out)@ == old(out)@ + filtered_by_from(bytes@, 0, drops)
            },
{
    let ghost all = sgr_params_from(bytes@, 0);
    let ghost mut ds: Seq<bool> = Seq::empty();
    let ghost mut ps: Seq<Seq<u8>> = Seq::empty();
    proof {
        assert forall|rest: Seq<bool>| #[trigger] filtered_by_from(bytes@, 0, rest) == filtered_by_from(bytes@, 0, ds + rest) by {
            assert(ds + rest =~= rest);
        }
        assert(ps + sgr_params_from(bytes@, 0) =~= all);
    }
    let mut i: usize = 0;
    while i < bytes.len()
        invariant
            i <= bytes.len(),
            forall|t: &str| call_requires(filter, (t,)),
            all == sgr_params_from(bytes@, 0),
            ps + sgr_params_from(bytes@, i as int) == all,
            ps.len() == ds.len(),
            forall|k: int| 0 <= k < ds.len() ==> #[trigger] answered(filter, ps[k], ds[k]),
            forall|rest: Seq<bool>|
                out@ + #[trigger] filtered_by_from(bytes@, i as int, rest) == old(out)@ + filtered_by_from(
                    bytes@,
                    0,
                    ds + rest,
                ),
        decreases bytes.len() - i,
    {
        let ghost pre = out@;
        let ghost i0 = i as int;
        let ghost ds0 = ds;
        let ghost ps0 = ps;
        if let Some(end) = skip_csi(bytes, i) {
            if end > 0 && bytes[end - 1] == 0x6d {
                let params = &bytes[i + 2..end - 1];
                let arg: &str = match utf8_str(params) {
                    Some(t) => t,
                    None => {
                        let e = "";
                        proof {
                            reveal_strlit("");
                            assert(e.spec_bytes() =~= Seq::<u8>::empty());
                        }
                        e
                    },
                };
                let d = filter(arg);
                if !d {
                    push_all(out, &bytes[i..end]);
                }
                proof {
                    assert(arg.spec_bytes() == sgr_arg(params@));
                    ds = ds0.push(d);
                    ps = ps0.push(params@);
                    assert(sgr_params_from(bytes@, i0) == seq![params@] + sgr_params_from(bytes@, end as int));
                    assert(ps + sgr_params_from(bytes@, end as int) =~= all);
                    assert(answered(filter, params@, d)) by {
                        assert(arg.spec_bytes() == sgr_arg(params@) && call_ensures(filter, (arg,), d));
                    }
                    assert forall|k: int| 0 <= k < ds.len() implies #[trigger] answered(filter, ps[k], ds[k]) by {
                        if k < ds0.len() {
                            assert(ds[k] == ds0[k] && ps[k] == ps0[k]);
                            assert(answered(filter, ps0[k], ds0[k]));
                        } else {
                            assert(ds[k] == d && ps[k] == params@);
                        }
                    }
                    assert forall|rest: Seq<bool>|
                        out@ + #[trigger] filtered_by_from(bytes@, end as int, rest) == old(out)@ + filtered_by_from(
                            bytes@,
                            0,
                            ds + rest,
                        ) by {
                        let r0 = seq![d] + rest;
                        assert(r0.subrange(1, r0.len() as int) =~= rest);
                        assert(filtered_by_from(bytes@, i0, r0) == (if d { Seq::<u8>::empty() } else { bytes@.subrange(i0, end as int) })
                            + filtered_by_from(bytes@, end as int, rest));
                        assert(pre + filtered_by_from(bytes@, i0, r0) == old(out)@ + filtered_by_from(bytes@, 0, ds0 + r0));
                        assert(ds0 + r0 =~= ds + rest);
                        assert(out@ + filtered_by_from(bytes@, end as int, rest) =~= pre + filtered_by_from(bytes@, i0, r0));
                    }
                }
            } else {
                push_all(out, &bytes[i..end]);
                proof {
                    assert(sgr_params_from(bytes@, i0) =~= sgr_params_from(bytes@, end as int));
                    assert forall|rest: Seq<bool>|
                        out@ + #[trigger] filtered_by_from(bytes@, end as int, rest) == old(out)@ + filtered_by_from(
                            bytes@,
                            0,
                            ds + rest,
                        ) by {
                        assert(pre + filtered_by_from(bytes@, i0, rest) == old(out)@ + filtered_by_from(bytes@, 0, ds + rest));
                        assert(out@ + filtered_by_from(bytes@, end as int, rest) =~= pre + filtered_by_from(bytes@, i0, rest));
                    }
                }
            }
            i = end;
        } else {
            out.push(bytes[i]);
            proof {
                assert forall|rest: Seq<bool>|
                    out@ + #[trigger] filtered_by_from(bytes@, i0 + 1, rest) == old(out)@ + filtered_by_from(
                        bytes@,
                        0,
                        ds + rest,
                    ) by {
                    assert(pre + filtered_by_from(bytes@, i0, rest) == old(out)@ + filtered_by_from(bytes@, 0, ds + rest));
                    assert(out@ + filtered_by_from(bytes@, i0 + 1, rest) =~= pre + filtered_by_from(bytes@, i0, rest));
                }
            }
            i += 1;
        }
    }
    proof {
        assert(filtered_by_from(bytes@, i as int, Seq::empty()) == Seq::<u8>::empty());
        assert(ds + Seq::<bool>::empty() =~= ds);
        assert(ps + sgr_params_from(bytes@, i as int) == all);
        assert(sgr_params_from(bytes@, i as int) == Seq::<Seq<u8>>::empty());
        assert(ps + Seq::<Seq<u8>>::empty() =~= ps);
        assert(ps == all);
        assert(out@ + filtered_by_from(bytes@, i as int, Seq::empty()) == old(out)@ + filtered_by_from(bytes@, 0, ds + Seq::empty()));
        assert(out@ == old(out)@ + filtered_by_from(bytes@, 0, ds));
        assert(forall|k: int| 0 <= k < ds.len() ==> #[trigger] answered(filter, sgr_params_from(bytes@, 0)[k], ds[k]));
    }
}

/// With foreground colours as the filter, the filtered copy is `filtered`.
proof fn lemma_filtered_by_fg(s: Seq<u8>, i: int, drops: Seq<bool>)
    requires
        0 <= i <= s.len(),
        drops.len() == sgr_params_from(s, i).len(),
        forall|k: int| 0 <= k < drops.len() ==> drops[k] == drops_fg(#[trigger] sgr_params_from(s, i)[k]),
    ensures
        filtered_by_from(s, i, drops) == filtered_from(s, i),
    decreases s.len() - i,
{
    if i < s.len() {
        match csi_end(s, i) {
            Some(end) => {
                lemma_csi_end_bounds(s, i);
                if is_sgr_seq(s, end) {
                    let p = s.subrange(i + 2, end - 1);
                    let rest = drops.subrange(1, drops.len() as int);
                    assert(sgr_params_from(s, i) == seq![p] + sgr_params_from(s, end));
                    assert(drops[0] == drops_fg(sgr_params_from(s, i)[0]));
                    assert forall|k: int| 0 <= k < rest.len() implies rest[k] == drops_fg(#[trigger] sgr_params_from(s, end)[k]) by {
                        assert(rest[k] == drops[k + 1]);
                        assert(sgr_params_from(s, i)[k + 1] == sgr_params_from(s, end)[k]);
                    }
                    lemma_filtered_by_fg(s, end, rest);
                } else {
                    assert(sgr_params_from(s, i) =~= sgr_params_from(s, end));
                    lemma_filtered_by_fg(s, end, drops);
                }
            },
            None => {
                lemma_filtered_by_fg(s, i + 1, drops);
            },
        }
    }
}

/// Append `bytes` to `out` with every foreground-colour SGR dropped and all
/// other bytes (text, other escapes) kept: the filter with
/// `is_fg_color_sgr`.
pub fn emit_without_fg(bytes: &[u8], out: &mut Vec<u8>)
    ensures
        final(out)@ == old(out)@ + filtered(bytes@),
{
    emit_filtered_ansi(bytes, out, is_fg_color_sgr);
    proof {
        let drops = choose|drops: Seq<bool>|
            {
                &&& drops.len() == sgr_params_from(bytes@, 0).len()
                &&& forall|k: int|
                    0 <= k < drops.len() ==> #[trigger] answered(is_fg_color_sgr, sgr_params_from(bytes@, 0)[k], drops[k])
                &&& final(out)@ == old(out)@ + filtered_by_from(bytes@, 0, drops)
            };
        assert forall|k: int| 0 <= k < drops.len() implies drops[k] == drops_fg(#[trigger] sgr_params_from(bytes@, 0)[k]) by {
            let p = sgr_params_from(bytes@, 0)[k];
            assert(answered(is_fg_color_sgr, p, drops[k]));
            let t = choose|t: &str| #[trigger] t.spec_bytes() == sgr_arg(p) && call_ensures(is_fg_color_sgr, (t,), drops[k]);
            assert(drops[k] == fg_color_params(sgr_arg(p)));
            if !valid_utf8(p) {
                lemma_no_params_no_fg();
            }
        }
        lemma_filtered_by_fg(bytes@, 0, drops);
    }
}

proof fn lemma_no_params_no_fg()
    ensures
        !fg_color_params(Seq::empty()),
{
    lemma_semicolon_at(Seq::empty());
    assert(first_param(Seq::<u8>::empty()) =~= Seq::<u8>::empty());
}

/// `bytes[i..]` with every SGR sequence (a CSI ending in `m`) removed.
pub open spec fn strip_sgr_from(s: Seq<u8>, i: int) -> Seq<u8>
    decreases s.len() - i,
{
    if i < 0 || i >= s.len() {
        Seq::empty()
    } else {
        match csi_end(s, i) {
            Some(end) => {
                let kept = if is_sgr_seq(s, end) { Seq::empty() } else { s.subrange(i, end) };
                if i < end <= s.len() { kept + strip_sgr_from(s, end) } else { Seq::empty() }
            },
            None => seq![s[i]] + strip_sgr_from(s, i + 1),
        }
    }
}

/// Remove every SGR escape, keeping text and other escapes: what reaches a
/// terminal that colour is off for.
pub fn strip_sgr(bytes: &[u8]) -> (r: Vec<u8>)
    ensures
        r@ == strip_sgr_from(bytes@, 0),
{
    let mut out: Vec<u8> = Vec::new();
    let mut i: usize = 0;
    while i < bytes.len()
        invariant
            i <= bytes.len(),
            out@ + strip_sgr_from(bytes@, i as int) == strip_sgr_from(bytes@, 0),
        decreases bytes.len() - i,
    {
        let ghost pre = out@;
        if let Some(end) = skip_csi(bytes, i) {
            if !(end > 0 && bytes[end - 1] == 0x6d) {
                push_all(&mut out, &bytes[i..end]);
            }
            assert(out@ + strip_sgr_from(bytes@, end as int) =~= pre + strip_sgr_from(bytes@, i as int));
            i = end;
        } else {
            out.push(bytes[i]);
            assert(out@ + strip_sgr_from(bytes@, i + 1) =~= pre + strip_sgr_from(bytes@, i as int));
            i += 1;
        }
    }
    assert(out@ =~= strip_sgr_from(bytes@, 0));
    out
}

/// The parameter text of one complete SGR escape `ESC [ params m`, or
/// `None` when `seq` is not one (or its parameters are not UTF-8).
pub fn sgr_params(seq: &[u8]) -> (r: Option<&str>)
    ensures
        r is Some <==> (seq@.len() >= 3 && seq@[0] == 0x1b && seq@[1] == 0x5b && seq@.last()
            == 0x6d && valid_utf8(seq@.subrange(2, seq@.len() - 1))),
        r matches Some(s) ==> s.spec_bytes() == seq@.subrange(2, seq@.len() - 1),
{
    if seq.len() >= 3 && seq[0] == 0x1b && seq[1] == 0x5b && seq[seq.len() - 1] == 0x6d {
        utf8_str(&seq[2..seq.len() - 1])
    } else {
        None
    }
}

} // verus!

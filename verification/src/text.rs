use vstd::prelude::*;
use vstd::utf8::valid_utf8;
use vstd::string::StringSliceAdditionalSpecFns;

verus! {

/// Value of a run of ASCII decimal digits, most significant first.
pub open spec fn digits_value(d: Seq<u8>) -> int
    decreases d.len(),
{
    if d.len() == 0 {
        0
    } else {
        digits_value(d.drop_last()) * 10 + (d.last() - 48)
    }
}

pub open spec fn is_digit(b: u8) -> bool {
    48 <= b <= 57
}

pub open spec fn all_digits(d: Seq<u8>) -> bool {
    forall|i: int| 0 <= i < d.len() ==> is_digit(#[trigger] d[i])
}

/// Decimal text with an optional sign byte `sign` in front, as Rust's
/// integer `FromStr` reads it: the sign is dropped, at least one digit must
/// follow, and nothing but digits may follow.
pub open spec fn unsigned_text(s: Seq<u8>) -> Option<int> {
    let d = if s.len() > 0 && s[0] == 43 { s.subrange(1, s.len() as int) } else { s };
    if d.len() > 0 && all_digits(d) { Some(digits_value(d)) } else { None }
}

/// What `u16::from_str` accepts, and the number it reads.
pub open spec fn u16_text(s: Seq<u8>) -> Option<int> {
    match unsigned_text(s) {
        Some(v) => if v <= 65535 { Some(v) } else { None },
        None => None,
    }
}

/// What `i64::from_str` accepts, and the number it reads: an optional `+`
/// or `-`, then decimal digits, within the range of `i64`.
pub open spec fn i64_text(s: Seq<u8>) -> Option<int> {
    if s.len() > 0 && s[0] == 45 {
        let d = s.subrange(1, s.len() as int);
        if d.len() > 0 && all_digits(d) && digits_value(d) <= 0x8000_0000_0000_0000 {
            Some(-digits_value(d))
        } else {
            None
        }
    } else {
        match unsigned_text(s) {
            Some(v) => if v <= 0x7fff_ffff_ffff_ffff { Some(v) } else { None },
            None => None,
        }
    }
}

pub proof fn lemma_digits_value_nonneg(d: Seq<u8>)
    requires
        all_digits(d),
    ensures
        digits_value(d) >= 0,
    decreases d.len(),
{
    if d.len() > 0 {
        assert(all_digits(d.drop_last()));
        lemma_digits_value_nonneg(d.drop_last());
    }
}

pub const DIGIT_CAP: u128 = 0x1_0000_0000_0000_0000;

/// The value of the digits in `d`, or `DIGIT_CAP` where it is at least that.
fn digits_capped(d: &[u8]) -> (r: u128)
    requires
        all_digits(d@),
    ensures
        r as int == if digits_value(d@) < DIGIT_CAP { digits_value(d@) } else { DIGIT_CAP as int },
{
    let mut acc: u128 = 0;
    let mut j: usize = 0;
    while j < d.len()
        invariant
            j <= d.len(),
            all_digits(d@),
            acc as int == if digits_value(d@.subrange(0, j as int)) < DIGIT_CAP {
                digits_value(d@.subrange(0, j as int))
            } else {
                DIGIT_CAP as int
            },
        decreases d.len() - j,
    {
        let ghost pre = d@.subrange(0, j as int);
        let ghost nxt = d@.subrange(0, j + 1);
        assert(nxt.drop_last() =~= pre);
        assert(all_digits(pre));
        proof {
            lemma_digits_value_nonneg(pre);
        }
        let dig = (d[j] - 48) as u128;
        if acc >= DIGIT_CAP {
            acc = DIGIT_CAP;
        } else {
            let v = acc * 10 + dig;
            if v >= DIGIT_CAP {
                acc = DIGIT_CAP;
            } else {
                acc = v;
            }
        }
        j = j + 1;
    }
    assert(d@.subrange(0, d@.len() as int) =~= d@);
    acc
}

/// Rust's `u16::from_str` on ASCII text.
pub fn parse_u16(s: &[u8]) -> (r: Option<u16>)
    ensures
        match r {
            Some(v) => u16_text(s@) == Some(v as int),
            None => u16_text(s@) is None,
        },
{
    let d: &[u8] = if s.len() > 0 && s[0] == 43 { &s[1..s.len()] } else { s };
    assert(d@ =~= (if s@.len() > 0 && s@[0] == 43 { s@.subrange(1, s@.len() as int) } else { s@ }));
    if d.len() == 0 || !ascii_digits(d) {
        return None;
    }
    let v = digits_capped(d);
    if v <= 65535 {
        Some(v as u16)
    } else {
        None
    }
}

/// Rust's `i64::from_str` on ASCII text.
pub fn parse_i64(s: &[u8]) -> (r: Option<i64>)
    ensures
        match r {
            Some(v) => i64_text(s@) == Some(v as int),
            None => i64_text(s@) is None,
        },
{
    if s.len() > 0 && s[0] == 45 {
        let d = &s[1..s.len()];
        if d.len() == 0 || !ascii_digits(d) {
            return None;
        }
        let v = digits_capped(d);
        if v <= 0x8000_0000_0000_0000 {
            proof { lemma_digits_value_nonneg(d@); }
            if v == 0x8000_0000_0000_0000 {
                Some(i64::MIN)
            } else {
                Some(-(v as i64))
            }
        } else {
            None
        }
    } else {
        let d: &[u8] = if s.len() > 0 && s[0] == 43 { &s[1..s.len()] } else { s };
        assert(d@ =~= (if s@.len() > 0 && s@[0] == 43 { s@.subrange(1, s@.len() as int) } else { s@ }));
        if d.len() == 0 || !ascii_digits(d) {
            return None;
        }
        let v = digits_capped(d);
        if v <= 0x7fff_ffff_ffff_ffff {
            Some(v as i64)
        } else {
            None
        }
    }
}

/// True when every byte is an ASCII digit.
pub fn ascii_digits(d: &[u8]) -> (r: bool)
    ensures
        r == all_digits(d@),
{
    let mut j: usize = 0;
    while j < d.len()
        invariant
            j <= d.len(),
            forall|k: int| 0 <= k < j ==> is_digit(#[trigger] d@[k]),
        decreases d.len() - j,
    {
        if d[j] < 48 || d[j] > 57 {
            return false;
        }
        j = j + 1;
    }
    true
}

/// Decimal text of `n`, most significant digit first, no leading zeros.
pub open spec fn decimal(n: nat) -> Seq<u8>
    decreases n,
{
    if n < 10 {
        seq![(n + 48) as u8]
    } else {
        decimal(n / 10).push(((n % 10) + 48) as u8)
    }
}

/// Append the decimal text of `n`, as `format!("{}", n)` writes it.
pub fn push_decimal(out: &mut Vec<u8>, n: u64)
    ensures
        final(out)@ == old(out)@ + decimal(n as nat),
    decreases n,
{
    if n < 10 {
        out.push((n as u8) + 48);
        assert(out@ =~= old(out)@ + decimal(n as nat));
    } else {
        push_decimal(out, n / 10);
        out.push(((n % 10) as u8) + 48);
        assert(out@ =~= old(out)@ + decimal(n as nat));
    }
}

/// `std::str::from_utf8`: `Some` exactly when the bytes are well-formed
/// UTF-8, and then a string slice over those same bytes.
#[verifier::external_body]
pub(crate) fn utf8_str(b: &[u8]) -> (r: Option<&str>)
    ensures
        r is Some <==> valid_utf8(b@),
        r matches Some(s) ==> s.spec_bytes() == b@,
{
    std::str::from_utf8(b).ok()
}


/// Length in bytes of a Unicode `White_Space` code point encoded in UTF-8 at
/// `i` (U+0009 to U+000D, U+0020, U+0085, U+00A0, U+1680, U+2000 to U+200A,
/// U+2028, U+2029, U+202F, U+205F, U+3000), or 0 when none starts there.
pub open spec fn ws_len_at(s: Seq<u8>, i: int) -> int {
    if 0 <= i < s.len() && ((9 <= s[i] <= 13) || s[i] == 32) {
        1
    } else if 0 <= i && i + 1 < s.len() && s[i] == 0xc2 && (s[i + 1] == 0x85 || s[i + 1] == 0xa0) {
        2
    } else if 0 <= i && i + 2 < s.len() && ((s[i] == 0xe1 && s[i + 1] == 0x9a && s[i + 2] == 0x80)
        || (s[i] == 0xe2 && s[i + 1] == 0x80 && ((0x80 <= s[i + 2] <= 0x8a) || s[i + 2] == 0xa8
        || s[i + 2] == 0xa9 || s[i + 2] == 0xaf)) || (s[i] == 0xe2 && s[i + 1] == 0x81 && s[i + 2]
        == 0x9f) || (s[i] == 0xe3 && s[i + 1] == 0x80 && s[i + 2] == 0x80)) {
        3
    } else {
        0
    }
}

/// Length of a `White_Space` code point whose encoding ends just before `j`
/// (and starts at or after `lo`), or 0.
pub open spec fn ws_len_before(s: Seq<u8>, lo: int, j: int) -> int {
    if lo <= j - 1 && ws_len_at(s, j - 1) == 1 {
        1
    } else if lo <= j - 2 && ws_len_at(s, j - 2) == 2 {
        2
    } else if lo <= j - 3 && ws_len_at(s, j - 3) == 3 {
        3
    } else {
        0
    }
}

/// First index at or after `i` where no leading whitespace remains.
pub open spec fn trim_start_from(s: Seq<u8>, i: int) -> int
    decreases s.len() - i,
{
    if 0 <= i < s.len() && ws_len_at(s, i) > 0 {
        trim_start_from(s, i + ws_len_at(s, i))
    } else {
        i
    }
}

/// End index once trailing whitespace in `s[lo..j]` is dropped.
pub open spec fn trim_end_to(s: Seq<u8>, lo: int, j: int) -> int
    decreases j - lo,
{
    if lo < j && ws_len_before(s, lo, j) > 0 {
        trim_end_to(s, lo, j - ws_len_before(s, lo, j))
    } else {
        j
    }
}

/// `str::trim` on UTF-8 text: leading and trailing `White_Space` removed.
pub open spec fn trimmed(s: Seq<u8>) -> Seq<u8> {
    let a = trim_start_from(s, 0);
    s.subrange(a, trim_end_to(s, a, s.len() as int))
}

proof fn lemma_trim_start(s: Seq<u8>, i: int)
    requires
        0 <= i <= s.len(),
    ensures
        i <= trim_start_from(s, i) <= s.len(),
    decreases s.len() - i,
{
    if i < s.len() && ws_len_at(s, i) > 0 {
        lemma_trim_start(s, i + ws_len_at(s, i));
    }
}

proof fn lemma_trim_end(s: Seq<u8>, lo: int, j: int)
    requires
        0 <= lo <= j <= s.len(),
    ensures
        lo <= trim_end_to(s, lo, j) <= j,
    decreases j - lo,
{
    if lo < j && ws_len_before(s, lo, j) > 0 {
        lemma_trim_end(s, lo, j - ws_len_before(s, lo, j));
    }
}

/// Length of a whitespace code point starting at `i` (see `ws_len_at`).
pub fn ws_len_at_exec(s: &[u8], i: usize) -> (r: usize)
    requires
        i <= s@.len(),
    ensures
        r as int == ws_len_at(s@, i as int),
        r > 0 ==> i + r <= s@.len(),
{
    let n = s.len();
    if i < n && ((9 <= s[i] && s[i] <= 13) || s[i] == 32) {
        1
    } else if n - i > 1 && s[i] == 0xc2 && (s[i + 1] == 0x85 || s[i + 1] == 0xa0) {
        2
    } else if n - i > 2 && ((s[i] == 0xe1 && s[i + 1] == 0x9a && s[i + 2] == 0x80) || (s[i] == 0xe2
        && s[i + 1] == 0x80 && ((0x80 <= s[i + 2] && s[i + 2] <= 0x8a) || s[i + 2] == 0xa8 || s[i + 2]
        == 0xa9 || s[i + 2] == 0xaf)) || (s[i] == 0xe2 && s[i + 1] == 0x81 && s[i + 2] == 0x9f) || (
    s[i] == 0xe3 && s[i + 1] == 0x80 && s[i + 2] == 0x80)) {
        3
    } else {
        0
    }
}

/// Length of a whitespace code point ending just before `j` (see
/// `ws_len_before`).
fn ws_len_before_exec(s: &[u8], lo: usize, j: usize) -> (r: usize)
    requires
        lo <= j <= s@.len(),
    ensures
        r as int == ws_len_before(s@, lo as int, j as int),
        r <= j - lo,
{
    if j - lo >= 1 && ws_len_at_exec(s, j - 1) == 1 {
        1
    } else if j - lo >= 2 && ws_len_at_exec(s, j - 2) == 2 {
        2
    } else if j - lo >= 3 && ws_len_at_exec(s, j - 3) == 3 {
        3
    } else {
        0
    }
}

/// `str::trim` on UTF-8 bytes: the slice without leading or trailing
/// Unicode whitespace.
pub fn trim_bytes(s: &[u8]) -> (r: &[u8])
    ensures
        r@ == trimmed(s@),
{
    let n = s.len();
    let mut a: usize = 0;
    let mut w = ws_len_at_exec(s, 0);
    while w > 0
        invariant
            n == s@.len(),
            a <= s@.len(),
            w as int == ws_len_at(s@, a as int),
            w > 0 ==> a + w <= s@.len(),
            trim_start_from(s@, a as int) == trim_start_from(s@, 0),
        decreases s@.len() - a,
    {
        a = a + w;
        w = ws_len_at_exec(s, a);
    }
    let mut b: usize = s.len();
    let mut v = ws_len_before_exec(s, a, b);
    while v > 0
        invariant
            a <= b <= s@.len(),
            v as int == ws_len_before(s@, a as int, b as int),
            v <= b - a,
            trim_start_from(s@, 0) == a,
            trim_end_to(s@, a as int, b as int) == trim_end_to(s@, a as int, s@.len() as int),
        decreases b - a,
    {
        b = b - v;
        v = ws_len_before_exec(s, a, b);
    }
    &s[a..b]
}

} // verus!

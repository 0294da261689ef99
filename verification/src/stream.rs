use vstd::prelude::*;
use vstd::string::StringSliceAdditionalSpecFns;
use crate::bytes::push_all;
use crate::config::{Activate, BatchSize, BIJJOU_TEMPLATE_NAME_FIELD};
use crate::render::{contains_bytes, occurs_in};
use crate::bytes::copy_bytes;
use crate::rows::lines_from;

verus! {

/// How many lines the first batch and each later batch take. A fixed size
/// is used for both (at least one line); `half-pager` fills the screen less
/// one line first (at least one), then half that (at least one), with 24
/// lines assumed when the height is unknown.
pub open spec fn batch_sizes(bs: BatchSize, height: Option<usize>) -> (usize, usize) {
    match bs {
        BatchSize::Fixed(n) => {
            let n = if n < 1 { 1usize } else { n };
            (n, n)
        },
        BatchSize::HalfPager => {
            let h = match height {
                Some(h) => h,
                None => 24usize,
            };
            let first: usize = if h <= 1 { 1usize } else { (h - 1) as usize };
            let rest: usize = if first / 2 < 1 { 1usize } else { first / 2 };
            (first, rest)
        },
    }
}

/// Batch sizes for streaming (see `batch_sizes`); `height` is the screen
/// height when known.
pub fn resolve_batch_sizes(bs: &BatchSize, height: Option<usize>) -> (r: (usize, usize))
    ensures
        r == batch_sizes(*bs, height),
{
    match bs {
        BatchSize::Fixed(n) => {
            let n = if *n < 1 { 1 } else { *n };
            (n, n)
        },
        BatchSize::HalfPager => {
            let h = match height {
                Some(h) => h,
                None => 24,
            };
            let first = if h <= 1 { 1 } else { h - 1 };
            let rest = if first / 2 < 1 { 1 } else { first / 2 };
            (first, rest)
        },
    }
}

/// Up to `batch_size` lines from the front of `input`, each keeping its
/// newline (a last line without one is kept too).
pub fn read_batch(input: &[u8], batch_size: usize) -> (r: Vec<Vec<u8>>)
    ensures
        r@.len() == if lines_from(input@, 0).len() < batch_size {
            lines_from(input@, 0).len() as int
        } else {
            batch_size as int
        },
        forall|k: int| 0 <= k < r@.len() ==> #[trigger] r@[k]@ == lines_from(input@, 0)[k],
{
    let all = crate::rows::split_lines(input);
    let mut out: Vec<Vec<u8>> = Vec::new();
    let mut k: usize = 0;
    while k < all.len() && k < batch_size
        invariant
            k <= all@.len(),
            k <= batch_size,
            all@.len() == lines_from(input@, 0).len(),
            forall|j: int| 0 <= j < all@.len() ==> #[trigger] all@[j]@ == lines_from(input@, 0)[j],
            out@.len() == k,
            forall|j: int| 0 <= j < k ==> #[trigger] out@[j]@ == lines_from(input@, 0)[j],
        decreases all@.len() - k,
    {
        out.push(copy_bytes(all[k].as_slice()));
        k = k + 1;
    }
    out
}

/// Whether input is rendered at all: never with `never`, always with
/// `always`; with `auto` only when `head` (the whole input, or the first
/// batch when streaming) carries the template-name field.
pub open spec fn activated(activate: Activate, head: Seq<u8>) -> bool {
    match activate {
        Activate::Never => false,
        Activate::Always => true,
        Activate::Auto => occurs_in(head, BIJJOU_TEMPLATE_NAME_FIELD.spec_bytes()),
    }
}

/// See `activated`.
pub fn activates(activate: Activate, head: &[u8]) -> (r: bool)
    ensures
        r == activated(activate, head@),
{
    match activate {
        Activate::Never => false,
        Activate::Always => true,
        Activate::Auto => contains_bytes(head, BIJJOU_TEMPLATE_NAME_FIELD.as_bytes()),
    }
}

/// Putting lines back together one more at a time.
pub proof fn lemma_concat_push(ls: Seq<Seq<u8>>, x: Seq<u8>)
    ensures
        crate::rows::concat(ls.push(x)) == crate::rows::concat(ls) + x,
    decreases ls.len(),
{
    if ls.len() == 0 {
        assert(ls.push(x).drop_first() =~= Seq::<Seq<u8>>::empty());
        assert(crate::rows::concat(ls.push(x).drop_first()) == Seq::<u8>::empty());
        assert(ls.push(x)[0] == x);
        assert(crate::rows::concat(ls.push(x)) == x + Seq::<u8>::empty());
        assert(crate::rows::concat(ls) == Seq::<u8>::empty());
        assert(x + Seq::<u8>::empty() =~= Seq::<u8>::empty() + x);
    } else {
        lemma_concat_push(ls.drop_first(), x);
        assert(ls.push(x).drop_first() =~= ls.drop_first().push(x));
        assert(crate::rows::concat(ls.push(x)) =~= crate::rows::concat(ls) + x);
    }
}

/// The lines of a batch put back together.
pub fn join_lines(lines: &Vec<Vec<u8>>) -> (r: Vec<u8>)
    ensures
        r@ == crate::rows::concat(crate::rows::lines_view(lines@)),
{
    let mut out: Vec<u8> = Vec::new();
    let ghost lv = crate::rows::lines_view(lines@);
    let mut k: usize = 0;
    assert(lv.take(0) =~= Seq::<Seq<u8>>::empty());
    while k < lines.len()
        invariant
            k <= lines@.len(),
            lv == crate::rows::lines_view(lines@),
            out@ == crate::rows::concat(lv.take(k as int)),
        decreases lines@.len() - k,
    {
        push_all(&mut out, lines[k].as_slice());
        proof {
            lemma_concat_push(lv.take(k as int), lv[k as int]);
            assert(lv.take(k as int).push(lv[k as int]) =~= lv.take(k + 1));
        }
        k = k + 1;
    }
    assert(lv.take(lines@.len() as int) =~= lv);
    out
}

} // verus!

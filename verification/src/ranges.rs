//! Page-aligned range arithmetic.
//!
//! Flush and residency operations act on whole pages, so a requested byte
//! range `[offset, offset + len)` inside a region of length `L` is widened to
//! its page-aligned enclosing window
//! `[align_down(offset, page), min(align_up(offset + len, page), L))`.

use vstd::arithmetic::div_mod::{
    lemma_fundamental_div_mod, lemma_mod_division_less_than_divisor, lemma_mod_multiples_basic,
};
use vstd::prelude::*;

verus! {

/// Largest multiple of `page` that is at most `x`.
pub open spec fn spec_align_down(x: int, page: int) -> int
    recommends
        page > 0,
        x >= 0,
{
    x - x % page
}

/// Smallest multiple of `page` that is at least `x`.
pub open spec fn spec_align_up(x: int, page: int) -> int
    recommends
        page > 0,
        x >= 0,
{
    if x % page == 0 {
        x
    } else {
        x - x % page + page
    }
}

/// End of the page-aligned enclosing window of `[offset, offset + len)` in a
/// region of length `region_len`: `align_up(offset + len)` clipped to the
/// region.
pub open spec fn spec_window_end(offset: int, len: int, region_len: int, page: int) -> int
    recommends
        page > 0,
        0 <= offset,
        0 <= len,
        offset + len <= region_len,
{
    if spec_align_up(offset + len, page) <= region_len {
        spec_align_up(offset + len, page)
    } else {
        region_len
    }
}

/// `spec_align_down` stays within `[x - page + 1, x]`, lands on a page
/// boundary, and is non-negative.
pub proof fn lemma_align_down(x: int, page: int)
    requires
        page > 0,
        x >= 0,
    ensures
        spec_align_down(x, page) % page == 0,
        spec_align_down(x, page) <= x,
        x < spec_align_down(x, page) + page,
        spec_align_down(x, page) >= 0,
{
    let q = x / page;
    lemma_mod_division_less_than_divisor(x, page);
    lemma_fundamental_div_mod(x, page);
    assert(x - x % page == page * q);
    lemma_mod_multiples_basic(q, page);
    assert(page * q == q * page);
    assert((x - x % page) % page == 0);
}

/// `spec_align_up` stays within `[x, x + page - 1]`, lands on a page
/// boundary, and is non-negative.
pub proof fn lemma_align_up(x: int, page: int)
    requires
        page > 0,
        x >= 0,
    ensures
        spec_align_up(x, page) % page == 0,
        x <= spec_align_up(x, page),
        spec_align_up(x, page) < x + page,
        spec_align_up(x, page) >= 0,
{
    lemma_align_down(x, page);
    if x % page != 0 {
        let q = x / page;
        lemma_fundamental_div_mod(x, page);
        assert(page * (q + 1) == page * q + page) by (nonlinear_arith);
        assert(x - x % page == page * q);
        assert(x - x % page + page == page * (q + 1));
        lemma_mod_multiples_basic(q + 1, page);
        assert(page * (q + 1) == (q + 1) * page);
        assert((x - x % page + page) % page == 0);
    }
}

/// The enclosing window contains the requested range and lies inside the
/// region.
pub proof fn lemma_window_encloses(offset: int, len: int, region_len: int, page: int)
    requires
        page > 0,
        0 <= offset,
        0 <= len,
        offset + len <= region_len,
    ensures
        0 <= spec_align_down(offset, page),
        spec_align_down(offset, page) <= offset,
        offset + len <= spec_window_end(offset, len, region_len, page),
        spec_window_end(offset, len, region_len, page) <= region_len,
{
    lemma_align_down(offset, page);
    lemma_align_up(offset + len, page);
}

/// Largest multiple of `page` that is at most `x`.
pub fn align_down(x: usize, page: usize) -> (r: usize)
    requires
        page > 0,
    ensures
        r == spec_align_down(x as int, page as int),
{
    proof {
        lemma_align_down(x as int, page as int);
    }
    x - x % page
}

/// Smallest multiple of `page` that is at least `x`; `None` when that
/// multiple does not fit in `usize`.
pub fn align_up(x: usize, page: usize) -> (r: Option<usize>)
    requires
        page > 0,
    ensures
        spec_align_up(x as int, page as int) <= usize::MAX ==> r == Some(
            spec_align_up(x as int, page as int) as usize,
        ),
        spec_align_up(x as int, page as int) > usize::MAX ==> r is None,
{
    proof {
        lemma_align_up(x as int, page as int);
        lemma_align_down(x as int, page as int);
    }
    let rem = x % page;
    if rem == 0 {
        Some(x)
    } else if page - rem <= usize::MAX - x {
        Some(x + (page - rem))
    } else {
        None
    }
}

/// Page-aligned enclosing window of `[offset, offset + len)` inside a region
/// of `region_len` bytes: start is `align_down(offset, page)`, end is
/// `align_up(offset + len, page)` clipped to the region.
pub fn enclosing_window(offset: usize, len: usize, region_len: usize, page: usize) -> (w: (
    usize,
    usize,
))
    requires
        page > 0,
        offset + len <= region_len,
    ensures
        w.0 == spec_align_down(offset as int, page as int),
        w.1 == spec_window_end(offset as int, len as int, region_len as int, page as int),
        w.0 <= offset,
        offset + len <= w.1,
        w.1 <= region_len,
{
    proof {
        lemma_window_encloses(offset as int, len as int, region_len as int, page as int);
        lemma_align_up((offset + len) as int, page as int);
    }
    let start = align_down(offset, page);
    let end = offset + len;
    let rem = end % page;
    let wend = if rem == 0 {
        end
    } else if region_len - end < page - rem {
        region_len
    } else {
        end + (page - rem)
    };
    (start, wend)
}

} // verus!

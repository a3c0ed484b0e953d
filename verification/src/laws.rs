//! Laws relating the mapping's operations.
//!
//! Each proof function states, over the spec functions the operations'
//! contracts use, a guarantee that spans several operations: what a read
//! sees after a write and a flush, what a ranged flush leaves untouched,
//! what a shrink makes unreachable, how disjoint writes compose, and what
//! chunked traversal reassembles to.

use crate::mapping::{
    chunk_at, copy_window, lemma_ceil_div_bound, spec_ceil_div, splice,
};
use vstd::arithmetic::div_mod::{
    lemma_fundamental_div_mod_converse_div, lemma_fundamental_div_mod_converse_mod,
};
use vstd::prelude::*;

verus! {

/// A write read back through a flush: after `update_region(offset, data)`
/// the region is `splice(s, offset, data)`; a full flush makes that the
/// persisted bytes; a fresh read-only mapping over them returns exactly
/// `data` for `[offset, offset + data.len())`, and every byte outside that
/// range is what it was before the write.
pub proof fn lemma_write_flush_read(s: Seq<u8>, offset: int, data: Seq<u8>)
    requires
        0 <= offset,
        offset + data.len() <= s.len(),
    ensures
        splice(s, offset, data).subrange(offset, offset + data.len() as int) == data,
        forall|i: int|
            0 <= i < s.len() && !(offset <= i < offset + data.len()) ==> splice(s, offset, data)[i]
                == s[i],
{
    assert(splice(s, offset, data).subrange(offset, offset + data.len() as int) =~= data);
}

/// A ranged flush synchronizes exactly its window: every byte of `[lo, hi)`
/// of the persisted image becomes the region's byte, and every byte outside
/// the window — a write before `lo` or after `hi` included — keeps its
/// previous persisted value.
pub proof fn lemma_flush_range_exact(dst: Seq<u8>, src: Seq<u8>, lo: int, hi: int)
    requires
        dst.len() == src.len(),
    ensures
        copy_window(dst, src, lo, hi).len() == dst.len(),
        forall|i: int|
            0 <= i < dst.len() && lo <= i < hi ==> copy_window(dst, src, lo, hi)[i] == src[i],
        forall|i: int|
            0 <= i < dst.len() && !(lo <= i < hi) ==> copy_window(dst, src, lo, hi)[i] == dst[i],
{
}

/// After shrinking to `new_len`, a read of at least one byte starting at or
/// beyond `new_len` exceeds the mapping's length, so `read_into` and
/// `as_slice` answer it with `InvalidRange` by their contracts.
pub proof fn lemma_shrink_invalidates_tail(new_len: int, offset: int, len: int)
    requires
        0 <= new_len <= offset,
        1 <= len,
    ensures
        offset + len > new_len,
{
}

/// Writes to disjoint ranges commute: performed in either order they leave
/// the same region, each range reads back its own data, and bytes in neither
/// range are untouched. With a full flush after both, both writes are
/// persisted, whichever interleaving the region lock serialized.
pub proof fn lemma_disjoint_writes_commute(
    s: Seq<u8>,
    o1: int,
    d1: Seq<u8>,
    o2: int,
    d2: Seq<u8>,
)
    requires
        0 <= o1,
        0 <= o2,
        o1 + d1.len() <= s.len(),
        o2 + d2.len() <= s.len(),
        o1 + d1.len() <= o2 || o2 + d2.len() <= o1,
    ensures
        splice(splice(s, o1, d1), o2, d2) == splice(splice(s, o2, d2), o1, d1),
        splice(splice(s, o1, d1), o2, d2).subrange(o1, o1 + d1.len() as int) == d1,
        splice(splice(s, o1, d1), o2, d2).subrange(o2, o2 + d2.len() as int) == d2,
        forall|i: int|
            0 <= i < s.len() && !(o1 <= i < o1 + d1.len()) && !(o2 <= i < o2 + d2.len())
                ==> splice(splice(s, o1, d1), o2, d2)[i] == s[i],
{
    assert(splice(splice(s, o1, d1), o2, d2) =~= splice(splice(s, o2, d2), o1, d1));
    assert(splice(splice(s, o1, d1), o2, d2).subrange(o1, o1 + d1.len() as int) =~= d1);
    assert(splice(splice(s, o1, d1), o2, d2).subrange(o2, o2 + d2.len() as int) =~= d2);
}

/// Concatenation of a sequence of byte chunks, in order.
pub open spec fn concat_seqs(cs: Seq<Seq<u8>>) -> Seq<u8>
    decreases cs.len(),
{
    if cs.len() == 0 {
        Seq::empty()
    } else {
        concat_seqs(cs.drop_last()) + cs.last()
    }
}

/// Chunked traversal loses and reorders nothing: the chunks of a mapping of
/// length `L` under chunk size `k` number `L / k` rounded up, and their
/// concatenation is the mapping's contents.
pub proof fn lemma_chunks_concat(cs: Seq<Seq<u8>>, s: Seq<u8>, k: int)
    requires
        k > 0,
        cs.len() == spec_ceil_div(s.len() as int, k),
        forall|c: int| 0 <= c < cs.len() ==> cs[c] == chunk_at(s, k, c),
    ensures
        concat_seqs(cs) == s,
    decreases cs.len(),
{
    let n = cs.len() as int;
    if n == 0 {
        lemma_ceil_div_bound(0, s.len() as int, k);
        assert(0int * k == 0) by (nonlinear_arith);
        assert(!(0int * k < s.len() as int));
        assert(s.len() == 0);
        assert(concat_seqs(cs) =~= s);
    } else {
        lemma_ceil_div_bound(n - 1, s.len() as int, k);
        lemma_ceil_div_bound(n, s.len() as int, k);
        assert((n - 1) * k < s.len());
        assert(s.len() <= n * k);
        assert(n * k == (n - 1) * k + k) by (nonlinear_arith);
        assert((n - 1) * k >= 0) by (nonlinear_arith)
            requires
                n >= 1,
                k > 0,
        ;
        let head_len = (n - 1) * k;
        let head = s.take(head_len);
        assert(head.len() == head_len);
        lemma_fundamental_div_mod_converse_div(head_len, k, n - 1, 0);
        lemma_fundamental_div_mod_converse_mod(head_len, k, n - 1, 0);
        assert(spec_ceil_div(head_len, k) == n - 1);
        assert forall|c: int| 0 <= c < n - 1 implies cs.drop_last()[c] == chunk_at(head, k, c) by {
            assert(cs.drop_last()[c] == cs[c]);
            assert((c + 1) * k <= (n - 1) * k) by (nonlinear_arith)
                requires
                    c + 1 <= n - 1,
                    k > 0,
            ;
            assert(c * k >= 0) by (nonlinear_arith)
                requires
                    c >= 0,
                    k > 0,
            ;
            assert((c + 1) * k == c * k + k) by (nonlinear_arith);
            assert(chunk_at(head, k, c) =~= chunk_at(s, k, c));
        }
        lemma_chunks_concat(cs.drop_last(), head, k);
        assert(cs.last() == chunk_at(s, k, n - 1));
        assert(chunk_at(s, k, n - 1) == s.subrange(head_len, s.len() as int));
        assert(concat_seqs(cs) == head + s.subrange(head_len, s.len() as int));
        assert(head + s.subrange(head_len, s.len() as int) =~= s);
    }
}

} // verus!

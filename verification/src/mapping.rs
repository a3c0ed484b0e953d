//! The mapping state model and its operations.
//!
//! A `MemoryMappedFile` holds the bytes the process sees through the map
//! (`contents`), the bytes the backing file holds after the last successful
//! flush (`persisted`), a residency flag per page, the access mode, the flush
//! policy and its two counters. Operations are the ones a mapping offers:
//! read, write, flush (full and ranged), resize, page touching, OS advice
//! validation, and chunked traversal. The process-level shell performs the
//! actual system calls and keeps its file in step with `persisted`.

use crate::flush::{flush_due, spec_flush_due, FlushPolicy};
use crate::ranges::{enclosing_window, lemma_align_down, spec_align_down, spec_window_end};
use vstd::arithmetic::div_mod::{
    lemma_fundamental_div_mod, lemma_fundamental_div_mod_converse_div,
    lemma_fundamental_div_mod_converse_mod,
};
use vstd::prelude::*;

verus! {

/// Size of an OS page in bytes, as assumed by the alignment arithmetic.
pub const PAGE_SIZE: usize = 4096;

/// Largest mapping length the model accepts; keeps every page computation
/// inside `usize`.
pub const MAX_MAP_LEN: usize = usize::MAX - PAGE_SIZE;

/// Access mode of a mapping.
#[derive(Debug, Clone, Copy, PartialEq, Eq, Structural)]
pub enum MmapMode {
    /// Every mutating operation is rejected.
    ReadOnly,
    /// Reads and writes; flushes persist to the backing file.
    ReadWrite,
    /// Private copy-on-write: writes stay in memory and never persist.
    CopyOnWrite,
}

/// Page residency hint applied at construction.
#[derive(Debug, Clone, Copy, PartialEq, Eq, Structural)]
pub enum TouchHint {
    /// Leave pages to fault in on first access.
    Never,
    /// Touch every page at the end of construction.
    Eager,
}

/// OS advice for a range of the mapping; unsupported values are silently
/// ignored by the shell, so passing advice is never fatal.
#[derive(Debug, Clone, Copy, PartialEq, Eq, Structural)]
pub enum MmapAdvice {
    Normal,
    Random,
    Sequential,
    WillNeed,
    DontNeed,
}

/// Error outcomes of the mapping operations.
#[derive(Debug, Clone, Copy, PartialEq, Eq, Structural)]
pub enum MmapError {
    /// An underlying file or mapping call failed; produced by the
    /// process-level shell, never by the verified core.
    Io,
    /// Offset or length exceeds the current mapping length.
    InvalidRange,
    /// Requested size is zero or exceeds the platform limit.
    InvalidSize,
    /// Mutating operation attempted on a read-only mapping.
    ReadOnly,
    /// Operation not permitted in the current mode.
    InvalidMode,
    /// Builder received contradictory or missing options.
    InvalidConfig,
    /// Optional capability requested but not available; produced by the
    /// process-level shell, never by the verified core.
    CapabilityDisabled,
}

/// `n` zero bytes.
pub open spec fn zero_bytes(n: int) -> Seq<u8> {
    Seq::new(n as nat, |i: int| 0u8)
}

/// `s` with `data` written at `offset`; bytes outside the written range keep
/// their value.
pub open spec fn splice(s: Seq<u8>, offset: int, data: Seq<u8>) -> Seq<u8> {
    Seq::new(
        s.len(),
        |i: int|
            if offset <= i && i < offset + data.len() {
                data[i - offset]
            } else {
                s[i]
            },
    )
}

/// `dst` with the bytes of `[lo, hi)` replaced by those of `src`; bytes
/// outside the window keep their value.
pub open spec fn copy_window(dst: Seq<u8>, src: Seq<u8>, lo: int, hi: int) -> Seq<u8> {
    Seq::new(
        dst.len(),
        |i: int|
            if lo <= i && i < hi {
                src[i]
            } else {
                dst[i]
            },
    )
}

/// Addition clipped to `usize::MAX`, the arithmetic of the flush counters.
pub open spec fn sat_add(a: nat, b: nat) -> nat {
    if a + b > usize::MAX {
        usize::MAX as nat
    } else {
        a + b
    }
}

/// Number of pages covering `len` bytes: `len / page` rounded up.
pub open spec fn spec_ceil_div(len: int, page: int) -> int
    recommends
        page > 0,
        len >= 0,
{
    if len % page == 0 {
        len / page
    } else {
        len / page + 1
    }
}

/// Whether page `pg` belongs to the page-aligned enclosing window of
/// `[offset, offset + len)` in a region of `region_len` bytes.
pub open spec fn page_in_window(pg: int, offset: int, len: int, region_len: int, page: int) -> bool {
    spec_align_down(offset, page) / page <= pg < spec_ceil_div(
        spec_window_end(offset, len, region_len, page),
        page,
    )
}

/// `s` truncated or zero-extended to length `n`: the effect of a resize on
/// both the region and the backing file.
pub open spec fn resize_seq(s: Seq<u8>, n: int) -> Seq<u8> {
    Seq::new(
        n as nat,
        |i: int|
            if i < s.len() {
                s[i]
            } else {
                0u8
            },
    )
}

/// Rounding up to whole pages never loses bytes: a count `n` is below the
/// page count of `len` exactly when page `n` starts inside `len` bytes.
pub proof fn lemma_ceil_div_bound(n: int, len: int, page: int)
    requires
        page > 0,
        len >= 0,
        n >= 0,
    ensures
        (n < spec_ceil_div(len, page)) == (n * page < len),
        spec_ceil_div(len, page) >= 0,
{
    lemma_fundamental_div_mod(len, page);
    let q = len / page;
    let r = len % page;
    assert(0 <= r < page) by {
        vstd::arithmetic::div_mod::lemma_mod_division_less_than_divisor(len, page);
    }
    assert(len / page >= 0) by {
        if q < 0 {
            assert(page * q <= -page) by (nonlinear_arith)
                requires
                    page > 0,
                    q <= -1,
            ;
        }
    }
    if n <= q - 1 {
        assert(n * page <= (q - 1) * page) by (nonlinear_arith)
            requires
                page > 0,
                n <= q - 1,
        ;
        assert((q - 1) * page == page * q - page) by (nonlinear_arith);
    }
    if n >= q + 1 {
        assert(n * page >= (q + 1) * page) by (nonlinear_arith)
            requires
                page > 0,
                n >= q + 1,
        ;
        assert((q + 1) * page == page * q + page) by (nonlinear_arith);
    }
    if n == q {
        assert(n * page == page * q) by (nonlinear_arith)
            requires
                n == q,
        ;
    }
}

/// A verified model of a memory-mapped file.
///
/// `contents` is the byte region the process sees; `persisted` is the image
/// of the backing file, brought up to date by flushes. The two have equal
/// length at all times, and a read-only mapping never lets them diverge.
pub struct MemoryMappedFile {
    mode: MmapMode,
    policy: FlushPolicy,
    region: Vec<u8>,
    durable: Vec<u8>,
    resident: Vec<bool>,
    bytes_since_flush: usize,
    writes_since_flush: usize,
    flushes: Ghost<nat>,
}

impl MemoryMappedFile {
    /// The bytes visible through the mapping.
    pub closed spec fn contents(self) -> Seq<u8> {
        self.region@
    }

    /// The bytes of the backing file after the last successful flush.
    pub closed spec fn persisted(self) -> Seq<u8> {
        self.durable@
    }

    /// Current length of the mapping in bytes.
    pub open spec fn spec_len(self) -> nat {
        self.contents().len()
    }

    pub closed spec fn mode_spec(self) -> MmapMode {
        self.mode
    }

    pub closed spec fn policy_spec(self) -> FlushPolicy {
        self.policy
    }

    /// Bytes written since the last flush, clipped at `usize::MAX`.
    pub closed spec fn pending_bytes(self) -> nat {
        self.bytes_since_flush as nat
    }

    /// Writes performed since the last flush, clipped at `usize::MAX`.
    pub closed spec fn pending_writes(self) -> nat {
        self.writes_since_flush as nat
    }

    /// Number of successful flushes performed over the mapping's lifetime,
    /// implicit and explicit together.
    pub closed spec fn flush_count(self) -> nat {
        self.flushes@
    }

    /// Residency flag of each page of the mapping.
    pub closed spec fn residency(self) -> Seq<bool> {
        self.resident@
    }

    /// Whether page `pg` has been touched.
    pub open spec fn page_resident(self, pg: int) -> bool {
        self.residency()[pg]
    }

    /// Well-formedness: region and file image have equal length, the length
    /// fits the platform limit, there is one residency flag per page, and a
    /// read-only mapping is identical to its file image with idle counters.
    pub closed spec fn wf(self) -> bool {
        &&& self.region@.len() == self.durable@.len()
        &&& self.region@.len() <= MAX_MAP_LEN
        &&& self.resident@.len() == spec_ceil_div(self.region@.len() as int, PAGE_SIZE as int)
        &&& (self.mode == MmapMode::ReadOnly ==> self.region@ == self.durable@
            && self.bytes_since_flush == 0 && self.writes_since_flush == 0)
    }

    /// What well-formedness guarantees about the visible model.
    pub proof fn lemma_wf(self)
        requires
            self.wf(),
        ensures
            self.persisted().len() == self.spec_len(),
            self.spec_len() <= MAX_MAP_LEN,
            self.residency().len() == spec_ceil_div(self.spec_len() as int, PAGE_SIZE as int),
            self.mode_spec() == MmapMode::ReadOnly ==> self.contents() == self.persisted(),
    {
    }
}

/// `n` zero bytes.
fn zero_vec(n: usize) -> (r: Vec<u8>)
    ensures
        r@ == zero_bytes(n as int),
{
    let r = vec![0u8; n];
    proof {
        assert forall|i: int| 0 <= i < n implies r@[i] == 0u8 by {
            assert(cloned::<u8>(0u8, r@[i]));
        }
        assert(r@ =~= zero_bytes(n as int));
    }
    r
}

/// `n` cleared residency flags.
fn false_vec(n: usize) -> (r: Vec<bool>)
    ensures
        r@ == Seq::new(n as nat, |i: int| false),
{
    let r = vec![false; n];
    proof {
        assert forall|i: int| 0 <= i < n implies r@[i] == false by {
            assert(cloned::<bool>(false, r@[i]));
        }
        assert(r@ =~= Seq::new(n as nat, |i: int| false));
    }
    r
}

/// Byte-for-byte copy of `v`.
fn clone_bytes(v: &Vec<u8>) -> (r: Vec<u8>)
    ensures
        r@ == v@,
{
    let r = v.clone();
    proof {
        assert forall|i: int| 0 <= i < v@.len() implies r@[i] == v@[i] by {
            assert(cloned::<u8>(v@[i], r@[i]));
        }
        assert(r@ =~= v@);
    }
    r
}

/// Number of residency flags for a region of `len` bytes.
fn page_count_exec(len: usize) -> (r: usize)
    requires
        len <= MAX_MAP_LEN,
    ensures
        r == spec_ceil_div(len as int, PAGE_SIZE as int),
{
    if len % PAGE_SIZE == 0 {
        len / PAGE_SIZE
    } else {
        len / PAGE_SIZE + 1
    }
}

impl MemoryMappedFile {
    /// Assemble a fresh mapping over `bytes`, with the file image equal to
    /// the region, cleared residency, and idle counters.
    fn assemble(mode: MmapMode, policy: FlushPolicy, bytes: Vec<u8>) -> (m: MemoryMappedFile)
        requires
            bytes@.len() <= MAX_MAP_LEN,
            mode == MmapMode::ReadOnly ==> policy == FlushPolicy::Never,
        ensures
            m.wf(),
            m.mode_spec() == mode,
            m.policy_spec() == policy,
            m.contents() == bytes@,
            m.persisted() == bytes@,
            m.pending_bytes() == 0,
            m.pending_writes() == 0,
            m.flush_count() == 0,
            forall|pg: int| 0 <= pg < m.residency().len() ==> !m.page_resident(pg),
    {
        let n = bytes.len();
        let durable = clone_bytes(&bytes);
        let resident = false_vec(page_count_exec(n));
        MemoryMappedFile {
            mode,
            policy,
            region: bytes,
            durable,
            resident,
            bytes_since_flush: 0,
            writes_since_flush: 0,
            flushes: Ghost(0),
        }
    }

    /// Create a fresh read-write mapping of `size` zero bytes, the model of
    /// creating the backing file with that length and mapping it.
    ///
    /// Rejects a zero size and a size beyond the platform limit with
    /// `InvalidSize`; any other size succeeds.
    pub fn create_rw(size: usize) -> (r: Result<MemoryMappedFile, MmapError>)
        ensures
            (size == 0 || size > MAX_MAP_LEN) <==> r == Err::<MemoryMappedFile, MmapError>(
                MmapError::InvalidSize,
            ),
            (0 < size && size <= MAX_MAP_LEN) ==> {
                &&& r is Ok
                &&& r->Ok_0.wf()
                &&& r->Ok_0.mode_spec() == MmapMode::ReadWrite
                &&& r->Ok_0.policy_spec() == FlushPolicy::Never
                &&& r->Ok_0.contents() == zero_bytes(size as int)
                &&& r->Ok_0.persisted() == zero_bytes(size as int)
                &&& r->Ok_0.pending_bytes() == 0
                &&& r->Ok_0.pending_writes() == 0
                &&& r->Ok_0.flush_count() == 0
                &&& forall|pg: int|
                    0 <= pg < r->Ok_0.residency().len() ==> !r->Ok_0.page_resident(pg)
            },
    {
        if size == 0 || size > MAX_MAP_LEN {
            return Err(MmapError::InvalidSize);
        }
        Ok(Self::assemble(MmapMode::ReadWrite, FlushPolicy::Never, zero_vec(size)))
    }

    /// Open an existing file read-only; `file` is the file's content, read by
    /// the shell, and becomes both the region and the file image.
    pub fn open_ro(file: Vec<u8>) -> (m: MemoryMappedFile)
        requires
            file@.len() <= MAX_MAP_LEN,
        ensures
            m.wf(),
            m.mode_spec() == MmapMode::ReadOnly,
            m.policy_spec() == FlushPolicy::Never,
            m.contents() == file@,
            m.persisted() == file@,
            m.pending_bytes() == 0,
            m.pending_writes() == 0,
            m.flush_count() == 0,
    {
        Self::assemble(MmapMode::ReadOnly, FlushPolicy::Never, file)
    }

    /// Open an existing file for private copy-on-write: writes are visible
    /// through this mapping but flushes never persist them.
    pub fn open_cow(file: Vec<u8>) -> (m: MemoryMappedFile)
        requires
            file@.len() <= MAX_MAP_LEN,
        ensures
            m.wf(),
            m.mode_spec() == MmapMode::CopyOnWrite,
            m.policy_spec() == FlushPolicy::Never,
            m.contents() == file@,
            m.persisted() == file@,
            m.pending_bytes() == 0,
            m.pending_writes() == 0,
            m.flush_count() == 0,
    {
        Self::assemble(MmapMode::CopyOnWrite, FlushPolicy::Never, file)
    }

    /// Current length of the mapping in bytes.
    pub fn len(&self) -> (r: usize)
        ensures
            r == self.spec_len(),
    {
        self.region.len()
    }

    /// Access mode of the mapping.
    pub fn mode(&self) -> (r: MmapMode)
        ensures
            r == self.mode_spec(),
    {
        self.mode
    }

    /// Flush policy of the mapping.
    pub fn policy(&self) -> (r: FlushPolicy)
        ensures
            r == self.policy_spec(),
    {
        self.policy
    }

    /// Bytes written since the last flush.
    pub fn bytes_since_flush(&self) -> (r: usize)
        ensures
            r == self.pending_bytes(),
    {
        self.bytes_since_flush
    }

    /// Writes performed since the last flush.
    pub fn writes_since_flush(&self) -> (r: usize)
        ensures
            r == self.pending_writes(),
    {
        self.writes_since_flush
    }

    /// Number of residency flags, one per page of the mapping.
    pub fn page_count(&self) -> (r: usize)
        requires
            self.wf(),
        ensures
            r == self.residency().len(),
    {
        self.resident.len()
    }

    /// Whether page `pg` has been touched; `None` when `pg` is not a page of
    /// the mapping.
    pub fn is_page_resident(&self, pg: usize) -> (r: Option<bool>)
        ensures
            pg < self.residency().len() ==> r == Some(self.page_resident(pg as int)),
            pg >= self.residency().len() ==> r is None,
    {
        if pg < self.resident.len() {
            Some(self.resident[pg])
        } else {
            None
        }
    }

    /// Copy of the backing file's bytes, the image a fresh read-only open of
    /// the same path would see after the flushes performed so far.
    pub fn durable_bytes(&self) -> (r: Vec<u8>)
        ensures
            r@ == self.persisted(),
    {
        clone_bytes(&self.durable)
    }

    /// Copy `buf.len()` bytes starting at `offset` into `buf`.
    ///
    /// Fails with `InvalidRange`, leaving `buf` unchanged, exactly when the
    /// requested range exceeds the mapping's length.
    pub fn read_into(&self, offset: usize, buf: &mut Vec<u8>) -> (r: Result<(), MmapError>)
        ensures
            offset + old(buf)@.len() <= self.spec_len() ==> {
                &&& r == Ok::<(), MmapError>(())
                &&& final(buf)@ == self.contents().subrange(
                    offset as int,
                    offset + old(buf)@.len(),
                )
            },
            offset + old(buf)@.len() > self.spec_len() ==> {
                &&& r == Err::<(), MmapError>(MmapError::InvalidRange)
                &&& final(buf)@ == old(buf)@
            },
    {
        let n = buf.len();
        if offset > self.region.len() || n > self.region.len() - offset {
            return Err(MmapError::InvalidRange);
        }
        let mut i: usize = 0;
        while i < n
            invariant
                i <= n,
                buf@.len() == n,
                offset + n <= self.region@.len(),
                self.region@.len() <= usize::MAX,
                forall|j: int| 0 <= j < i ==> buf@[j] == self.contents()[offset + j],
            decreases n - i,
        {
            let b = self.region[offset + i];
            buf[i] = b;
            i += 1;
        }
        proof {
            assert(buf@ =~= self.contents().subrange(offset as int, offset + n as int));
        }
        Ok(())
    }

    /// Borrowed view of the bytes of `[offset, offset + len)`.
    ///
    /// Fails with `InvalidRange` exactly when the requested range exceeds the
    /// mapping's length.
    pub fn as_slice(&self, offset: usize, len: usize) -> (r: Result<&[u8], MmapError>)
        ensures
            offset + len <= self.spec_len() ==> {
                &&& r is Ok
                &&& r->Ok_0@ == self.contents().subrange(offset as int, offset + len)
            },
            offset + len > self.spec_len() ==> r == Err::<&[u8], MmapError>(
                MmapError::InvalidRange,
            ),
    {
        if offset > self.region.len() || len > self.region.len() - offset {
            return Err(MmapError::InvalidRange);
        }
        Ok(vstd::slice::slice_subrange(self.region.as_slice(), offset, offset + len))
    }
}

/// Addition clipped to `usize::MAX`.
fn sat_add_usize(a: usize, b: usize) -> (r: usize)
    ensures
        r as nat == sat_add(a as nat, b as nat),
{
    if a > usize::MAX - b {
        usize::MAX
    } else {
        a + b
    }
}

impl MemoryMappedFile {
    /// Perform the model of a successful flush: bring the file image up to
    /// date (read-write only: copy-on-write persists nothing), reset both
    /// counters, and record the flush.
    fn apply_full_flush(&mut self)
        requires
            old(self).wf(),
            old(self).mode_spec() != MmapMode::ReadOnly,
        ensures
            final(self).wf(),
            final(self).mode_spec() == old(self).mode_spec(),
            final(self).policy_spec() == old(self).policy_spec(),
            final(self).contents() == old(self).contents(),
            final(self).residency() == old(self).residency(),
            final(self).pending_bytes() == 0,
            final(self).pending_writes() == 0,
            final(self).flush_count() == old(self).flush_count() + 1,
            final(self).persisted() == if old(self).mode_spec() == MmapMode::ReadWrite {
                old(self).contents()
            } else {
                old(self).persisted()
            },
    {
        if self.mode == MmapMode::ReadWrite {
            self.durable = clone_bytes(&self.region);
        }
        self.bytes_since_flush = 0;
        self.writes_since_flush = 0;
        self.flushes = Ghost(self.flushes@ + 1);
    }

    /// Synchronously persist the full mapping.
    ///
    /// A read-only mapping rejects the call with `ReadOnly` and is left
    /// unchanged. A read-write mapping brings the file image up to date with
    /// the region; a copy-on-write mapping succeeds without persisting
    /// anything. Every successful flush resets both policy counters.
    pub fn flush(&mut self) -> (r: Result<(), MmapError>)
        requires
            old(self).wf(),
        ensures
            final(self).wf(),
            old(self).mode_spec() == MmapMode::ReadOnly ==> {
                &&& r == Err::<(), MmapError>(MmapError::ReadOnly)
                &&& *final(self) == *old(self)
            },
            old(self).mode_spec() != MmapMode::ReadOnly ==> {
                &&& r == Ok::<(), MmapError>(())
                &&& final(self).mode_spec() == old(self).mode_spec()
                &&& final(self).policy_spec() == old(self).policy_spec()
                &&& final(self).contents() == old(self).contents()
                &&& final(self).residency() == old(self).residency()
                &&& final(self).pending_bytes() == 0
                &&& final(self).pending_writes() == 0
                &&& final(self).flush_count() == old(self).flush_count() + 1
                &&& final(self).persisted() == if old(self).mode_spec() == MmapMode::ReadWrite {
                    old(self).contents()
                } else {
                    old(self).persisted()
                }
            },
    {
        if self.mode == MmapMode::ReadOnly {
            return Err(MmapError::ReadOnly);
        }
        self.apply_full_flush();
        Ok(())
    }

    /// Copy `data` into `[offset, offset + data.len())`, then consult the
    /// flush policy.
    ///
    /// A read-only mapping rejects the call with `ReadOnly`; a range beyond
    /// the mapping's length is rejected with `InvalidRange`; both leave the
    /// mapping unchanged. On success the two policy counters grow by
    /// `data.len()` bytes and one write, and when the policy finds them due
    /// (`Always`; `EveryBytes(n)` at `n` bytes; `EveryWrites(w)` at `w`
    /// writes) exactly one implicit full flush follows before the call
    /// returns, resetting both counters.
    pub fn update_region(&mut self, offset: usize, data: &[u8]) -> (r: Result<(), MmapError>)
        requires
            old(self).wf(),
        ensures
            final(self).wf(),
            old(self).mode_spec() == MmapMode::ReadOnly ==> {
                &&& r == Err::<(), MmapError>(MmapError::ReadOnly)
                &&& *final(self) == *old(self)
            },
            old(self).mode_spec() != MmapMode::ReadOnly && offset + data@.len() > old(
                self,
            ).spec_len() ==> {
                &&& r == Err::<(), MmapError>(MmapError::InvalidRange)
                &&& *final(self) == *old(self)
            },
            old(self).mode_spec() != MmapMode::ReadOnly && offset + data@.len() <= old(
                self,
            ).spec_len() ==> {
                let written = splice(old(self).contents(), offset as int, data@);
                let grown_bytes = sat_add(old(self).pending_bytes(), data@.len());
                let grown_writes = sat_add(old(self).pending_writes(), 1);
                let due = spec_flush_due(old(self).policy_spec(), grown_bytes, grown_writes);
                &&& r == Ok::<(), MmapError>(())
                &&& final(self).mode_spec() == old(self).mode_spec()
                &&& final(self).policy_spec() == old(self).policy_spec()
                &&& final(self).contents() == written
                &&& final(self).residency() == old(self).residency()
                &&& (due ==> {
                    &&& final(self).pending_bytes() == 0
                    &&& final(self).pending_writes() == 0
                    &&& final(self).flush_count() == old(self).flush_count() + 1
                    &&& final(self).persisted() == if old(self).mode_spec()
                        == MmapMode::ReadWrite {
                        written
                    } else {
                        old(self).persisted()
                    }
                })
                &&& (!due ==> {
                    &&& final(self).pending_bytes() == grown_bytes
                    &&& final(self).pending_writes() == grown_writes
                    &&& final(self).flush_count() == old(self).flush_count()
                    &&& final(self).persisted() == old(self).persisted()
                })
            },
    {
        if self.mode == MmapMode::ReadOnly {
            return Err(MmapError::ReadOnly);
        }
        let n = data.len();
        if offset > self.region.len() || n > self.region.len() - offset {
            return Err(MmapError::InvalidRange);
        }
        let mut i: usize = 0;
        while i < n
            invariant
                i <= n,
                n == data@.len(),
                offset + n <= self.region@.len(),
                self.region@.len() <= usize::MAX,
                self.region@.len() == old(self).contents().len(),
                self.mode_spec() == old(self).mode_spec(),
                self.policy_spec() == old(self).policy_spec(),
                self.persisted() == old(self).persisted(),
                self.residency() == old(self).residency(),
                self.pending_bytes() == old(self).pending_bytes(),
                self.pending_writes() == old(self).pending_writes(),
                self.flush_count() == old(self).flush_count(),
                self.wf(),
                self.mode_spec() != MmapMode::ReadOnly,
                forall|j: int|
                    0 <= j < self.region@.len() ==> self.region@[j] == (if offset <= j && j
                        < offset + i {
                        data@[j - offset]
                    } else {
                        old(self).contents()[j]
                    }),
            decreases n - i,
        {
            let b = data[i];
            self.region[offset + i] = b;
            i += 1;
        }
        proof {
            assert(self.region@ =~= splice(old(self).contents(), offset as int, data@));
        }
        let grown_bytes = sat_add_usize(self.bytes_since_flush, n);
        let grown_writes = sat_add_usize(self.writes_since_flush, 1);
        self.bytes_since_flush = grown_bytes;
        self.writes_since_flush = grown_writes;
        if flush_due(self.policy, grown_bytes, grown_writes) {
            self.apply_full_flush();
        }
        Ok(())
    }

    /// Synchronize the page-aligned enclosing window of `[offset, offset +
    /// len)`: exactly the pages of `[align_down(offset), min(align_up(offset
    /// + len), len()))` are persisted, and no byte outside that window.
    ///
    /// A read-only mapping rejects the call with `ReadOnly`; a range beyond
    /// the mapping's length is rejected with `InvalidRange`; both leave the
    /// mapping unchanged. A copy-on-write mapping succeeds without
    /// persisting. Every successful call resets both policy counters.
    pub fn flush_range(&mut self, offset: usize, len: usize) -> (r: Result<(), MmapError>)
        requires
            old(self).wf(),
        ensures
            final(self).wf(),
            old(self).mode_spec() == MmapMode::ReadOnly ==> {
                &&& r == Err::<(), MmapError>(MmapError::ReadOnly)
                &&& *final(self) == *old(self)
            },
            old(self).mode_spec() != MmapMode::ReadOnly && offset + len > old(self).spec_len()
                ==> {
                &&& r == Err::<(), MmapError>(MmapError::InvalidRange)
                &&& *final(self) == *old(self)
            },
            old(self).mode_spec() != MmapMode::ReadOnly && offset + len <= old(self).spec_len()
                ==> {
                let lo = spec_align_down(offset as int, PAGE_SIZE as int);
                let hi = spec_window_end(
                    offset as int,
                    len as int,
                    old(self).spec_len() as int,
                    PAGE_SIZE as int,
                );
                &&& r == Ok::<(), MmapError>(())
                &&& final(self).mode_spec() == old(self).mode_spec()
                &&& final(self).policy_spec() == old(self).policy_spec()
                &&& final(self).contents() == old(self).contents()
                &&& final(self).residency() == old(self).residency()
                &&& final(self).pending_bytes() == 0
                &&& final(self).pending_writes() == 0
                &&& final(self).flush_count() == old(self).flush_count() + 1
                &&& final(self).persisted() == if old(self).mode_spec() == MmapMode::ReadWrite {
                    copy_window(old(self).persisted(), old(self).contents(), lo, hi)
                } else {
                    old(self).persisted()
                }
            },
    {
        if self.mode == MmapMode::ReadOnly {
            return Err(MmapError::ReadOnly);
        }
        if offset > self.region.len() || len > self.region.len() - offset {
            return Err(MmapError::InvalidRange);
        }
        if self.mode == MmapMode::ReadWrite {
            let (lo, hi) = enclosing_window(offset, len, self.region.len(), PAGE_SIZE);
            let mut i = lo;
            while i < hi
                invariant
                    lo <= i <= hi,
                    hi <= self.region@.len(),
                    self.region@.len() <= usize::MAX,
                    self.durable@.len() == self.region@.len(),
                    self.region@.len() == old(self).contents().len(),
                    self.contents() == old(self).contents(),
                    self.mode_spec() == old(self).mode_spec(),
                    self.policy_spec() == old(self).policy_spec(),
                    self.residency() == old(self).residency(),
                    self.pending_bytes() == old(self).pending_bytes(),
                    self.pending_writes() == old(self).pending_writes(),
                    self.flush_count() == old(self).flush_count(),
                    self.wf(),
                    self.mode_spec() == MmapMode::ReadWrite,
                    forall|j: int|
                        0 <= j < self.durable@.len() ==> self.durable@[j] == (if lo <= j && j < i {
                            old(self).contents()[j]
                        } else {
                            old(self).persisted()[j]
                        }),
                decreases hi - i,
            {
                let b = self.region[i];
                self.durable[i] = b;
                i += 1;
            }
            proof {
                assert(self.durable@ =~= copy_window(
                    old(self).persisted(),
                    old(self).contents(),
                    lo as int,
                    hi as int,
                ));
            }
        }
        self.bytes_since_flush = 0;
        self.writes_since_flush = 0;
        self.flushes = Ghost(self.flushes@ + 1);
        Ok(())
    }

    /// Change the mapping (and the backing file) to `new_size` bytes and
    /// remap: growing extends with zero bytes, shrinking truncates and makes
    /// the cut tail unreachable. Only a read-write mapping may resize: a
    /// read-only one answers `ReadOnly`, a copy-on-write one `InvalidMode`; a
    /// zero or over-limit size answers `InvalidSize`. The remap clears all
    /// residency flags; the policy counters are unaffected.
    pub fn resize(&mut self, new_size: usize) -> (r: Result<(), MmapError>)
        requires
            old(self).wf(),
        ensures
            final(self).wf(),
            old(self).mode_spec() == MmapMode::ReadOnly ==> {
                &&& r == Err::<(), MmapError>(MmapError::ReadOnly)
                &&& *final(self) == *old(self)
            },
            old(self).mode_spec() == MmapMode::CopyOnWrite ==> {
                &&& r == Err::<(), MmapError>(MmapError::InvalidMode)
                &&& *final(self) == *old(self)
            },
            old(self).mode_spec() == MmapMode::ReadWrite && (new_size == 0 || new_size
                > MAX_MAP_LEN) ==> {
                &&& r == Err::<(), MmapError>(MmapError::InvalidSize)
                &&& *final(self) == *old(self)
            },
            old(self).mode_spec() == MmapMode::ReadWrite && 0 < new_size && new_size
                <= MAX_MAP_LEN ==> {
                &&& r == Ok::<(), MmapError>(())
                &&& final(self).mode_spec() == old(self).mode_spec()
                &&& final(self).policy_spec() == old(self).policy_spec()
                &&& final(self).spec_len() == new_size
                &&& final(self).contents() == resize_seq(old(self).contents(), new_size as int)
                &&& final(self).persisted() == resize_seq(old(self).persisted(), new_size as int)
                &&& final(self).pending_bytes() == old(self).pending_bytes()
                &&& final(self).pending_writes() == old(self).pending_writes()
                &&& final(self).flush_count() == old(self).flush_count()
                &&& forall|pg: int|
                    0 <= pg < final(self).residency().len() ==> !final(self).page_resident(pg)
            },
    {
        match self.mode {
            MmapMode::ReadOnly => {
                return Err(MmapError::ReadOnly);
            },
            MmapMode::CopyOnWrite => {
                return Err(MmapError::InvalidMode);
            },
            MmapMode::ReadWrite => {},
        }
        if new_size == 0 || new_size > MAX_MAP_LEN {
            return Err(MmapError::InvalidSize);
        }
        let ghost old_len = self.region@.len() as int;
        self.region.resize(new_size, 0u8);
        self.durable.resize(new_size, 0u8);
        proof {
            if new_size > old_len {
                assert forall|j: int| old_len <= j < new_size implies self.region@[j] == 0u8 by {
                    assert(cloned::<u8>(0u8, self.region@[j]));
                }
                assert forall|j: int| old_len <= j < new_size implies self.durable@[j] == 0u8 by {
                    assert(cloned::<u8>(0u8, self.durable@[j]));
                }
                assert forall|j: int| 0 <= j < old_len implies self.region@[j] == old(
                    self,
                ).contents()[j] by {
                    assert(self.region@.subrange(0, old_len)[j] == self.region@[j]);
                }
                assert forall|j: int| 0 <= j < old_len implies self.durable@[j] == old(
                    self,
                ).persisted()[j] by {
                    assert(self.durable@.subrange(0, old_len)[j] == self.durable@[j]);
                }
            }
            assert(self.region@ =~= resize_seq(old(self).contents(), new_size as int));
            assert(self.durable@ =~= resize_seq(old(self).persisted(), new_size as int));
        }
        self.resident = false_vec(page_count_exec(new_size));
        Ok(())
    }

    /// Touch every page of the mapping in ascending order, forcing
    /// allocation and fault-in; safe in all modes.
    pub fn touch_pages(&mut self) -> (r: Result<(), MmapError>)
        requires
            old(self).wf(),
        ensures
            final(self).wf(),
            r == Ok::<(), MmapError>(()),
            final(self).mode_spec() == old(self).mode_spec(),
            final(self).policy_spec() == old(self).policy_spec(),
            final(self).contents() == old(self).contents(),
            final(self).persisted() == old(self).persisted(),
            final(self).pending_bytes() == old(self).pending_bytes(),
            final(self).pending_writes() == old(self).pending_writes(),
            final(self).flush_count() == old(self).flush_count(),
            final(self).residency().len() == old(self).residency().len(),
            forall|pg: int|
                0 <= pg < final(self).residency().len() ==> final(self).page_resident(pg),
    {
        let n = self.resident.len();
        let mut pg: usize = 0;
        while pg < n
            invariant
                pg <= n,
                n == self.resident@.len(),
                self.mode_spec() == old(self).mode_spec(),
                self.policy_spec() == old(self).policy_spec(),
                self.contents() == old(self).contents(),
                self.persisted() == old(self).persisted(),
                self.pending_bytes() == old(self).pending_bytes(),
                self.pending_writes() == old(self).pending_writes(),
                self.flush_count() == old(self).flush_count(),
                self.wf(),
                forall|j: int| 0 <= j < pg ==> self.resident@[j],
            decreases n - pg,
        {
            self.resident[pg] = true;
            pg += 1;
        }
        Ok(())
    }

    /// Touch the pages of the page-aligned enclosing window of `[offset,
    /// offset + len)`, in ascending order.
    ///
    /// Fails with `InvalidRange`, leaving the mapping unchanged, exactly when
    /// the requested range exceeds the mapping's length. On success the flags
    /// of pages `align_down(offset) / PAGE_SIZE` up to the page count of the
    /// window's end are set; all other state is unchanged.
    pub fn touch_pages_range(&mut self, offset: usize, len: usize) -> (r: Result<(), MmapError>)
        requires
            old(self).wf(),
        ensures
            final(self).wf(),
            offset + len > old(self).spec_len() ==> {
                &&& r == Err::<(), MmapError>(MmapError::InvalidRange)
                &&& *final(self) == *old(self)
            },
            offset + len <= old(self).spec_len() ==> {
                &&& r == Ok::<(), MmapError>(())
                &&& final(self).mode_spec() == old(self).mode_spec()
                &&& final(self).policy_spec() == old(self).policy_spec()
                &&& final(self).contents() == old(self).contents()
                &&& final(self).persisted() == old(self).persisted()
                &&& final(self).pending_bytes() == old(self).pending_bytes()
                &&& final(self).pending_writes() == old(self).pending_writes()
                &&& final(self).flush_count() == old(self).flush_count()
                &&& final(self).residency().len() == old(self).residency().len()
                &&& forall|pg: int|
                    0 <= pg < final(self).residency().len() ==> final(self).page_resident(pg) == (
                    old(self).page_resident(pg) || page_in_window(
                        pg,
                        offset as int,
                        len as int,
                        old(self).spec_len() as int,
                        PAGE_SIZE as int,
                    ))
            },
    {
        let l = self.region.len();
        if offset > l || len > l - offset {
            return Err(MmapError::InvalidRange);
        }
        let (lo, hi) = enclosing_window(offset, len, l, PAGE_SIZE);
        proof {
            lemma_align_down(offset as int, PAGE_SIZE as int);
            lemma_fundamental_div_mod(lo as int, PAGE_SIZE as int);
        }
        let first_pg = lo / PAGE_SIZE;
        let mut pos = lo;
        let mut pg = first_pg;
        while pos < hi
            invariant
                lo <= pos,
                first_pg <= pg,
                pos == pg * PAGE_SIZE,
                pos == lo ==> pg == first_pg,
                pos > lo ==> pos >= lo + PAGE_SIZE && pos - PAGE_SIZE < hi,
                hi <= l,
                l == self.region@.len(),
                l <= MAX_MAP_LEN,
                lo == first_pg * PAGE_SIZE,
                self.mode_spec() == old(self).mode_spec(),
                self.policy_spec() == old(self).policy_spec(),
                self.contents() == old(self).contents(),
                self.persisted() == old(self).persisted(),
                self.pending_bytes() == old(self).pending_bytes(),
                self.pending_writes() == old(self).pending_writes(),
                self.flush_count() == old(self).flush_count(),
                self.wf(),
                self.resident@.len() == old(self).residency().len(),
                forall|j: int|
                    0 <= j < self.resident@.len() ==> self.resident@[j] == (old(self).page_resident(
                        j,
                    ) || (first_pg <= j < pg)),
            decreases hi + PAGE_SIZE - pos,
        {
            proof {
                lemma_ceil_div_bound(pg as int, l as int, PAGE_SIZE as int);
            }
            self.resident[pg] = true;
            pos += PAGE_SIZE;
            pg += 1;
        }
        proof {
            let hi_i = hi as int;
            let p = PAGE_SIZE as int;
            if pos == lo {
                assert(lo == hi);
                assert(hi_i == first_pg as int * p + 0);
                lemma_fundamental_div_mod_converse_div(hi_i, p, first_pg as int, 0);
                lemma_fundamental_div_mod_converse_mod(hi_i, p, first_pg as int, 0);
                assert(spec_ceil_div(hi_i, p) == first_pg as int);
            } else {
                assert((pg as int - 1) * p == pg as int * p - p) by (nonlinear_arith);
                assert(hi_i > 0);
                lemma_ceil_div_from_bounds(hi_i, p, pg as int);
            }
            assert(spec_ceil_div(hi_i, p) == pg as int);
            let lo_s = spec_align_down(offset as int, p);
            let hi_s = spec_window_end(offset as int, len as int, old(self).spec_len() as int, p);
            assert(lo as int == lo_s);
            assert(hi_i == hi_s);
            assert(first_pg as int == lo_s / p);
            assert forall|j: int| 0 <= j < self.resident@.len() implies self.resident@[j] == (old(
                self,
            ).page_resident(j) || page_in_window(
                j,
                offset as int,
                len as int,
                old(self).spec_len() as int,
                p,
            )) by {
                assert(self.resident@[j] == (old(self).page_resident(j) || (first_pg <= j < pg)));
                assert(page_in_window(
                    j,
                    offset as int,
                    len as int,
                    old(self).spec_len() as int,
                    p,
                ) == (lo_s / p <= j < spec_ceil_div(hi_s, p)));
                assert((lo_s / p <= j < spec_ceil_div(hi_s, p)) == (first_pg <= j < pg));
            }
        }
        Ok(())
    }

    /// Validate the advised window; the advice itself is an OS hint the
    /// shell passes down for the page-aligned enclosing window, never fatal
    /// and without effect on the model.
    ///
    /// Fails with `InvalidRange` exactly when the requested range exceeds the
    /// mapping's length.
    pub fn advise(&self, offset: usize, len: usize, advice: MmapAdvice) -> (r: Result<
        (),
        MmapError,
    >)
        ensures
            offset + len <= self.spec_len() ==> r == Ok::<(), MmapError>(()),
            offset + len > self.spec_len() ==> r == Err::<(), MmapError>(MmapError::InvalidRange),
    {
        let _ = advice;
        if offset > self.region.len() || len > self.region.len() - offset {
            Err(MmapError::InvalidRange)
        } else {
            Ok(())
        }
    }
}

/// Chunk `c` of `s` under chunk size `k`: the bytes of
/// `[c * k, min((c + 1) * k, s.len()))`.
pub open spec fn chunk_at(s: Seq<u8>, k: int, c: int) -> Seq<u8>
    recommends
        k > 0,
        0 <= c,
        c * k <= s.len(),
{
    s.subrange(
        c * k,
        if (c + 1) * k <= s.len() {
            (c + 1) * k
        } else {
            s.len() as int
        },
    )
}

impl MemoryMappedFile {
    /// Owned byte chunks covering the mapping in ascending order: the number
    /// of chunks is the mapping's length divided by `chunk_size` rounded up,
    /// every chunk holds `chunk_size` bytes except a possibly shorter last
    /// one, and their concatenation is the mapping's contents.
    pub fn chunks(&self, chunk_size: usize) -> (r: Vec<Vec<u8>>)
        requires
            chunk_size > 0,
        ensures
            r@.len() == spec_ceil_div(self.spec_len() as int, chunk_size as int),
            forall|c: int|
                0 <= c < r@.len() ==> r@[c]@ == chunk_at(self.contents(), chunk_size as int, c),
    {
        let l = self.region.len();
        let k = chunk_size;
        let mut r: Vec<Vec<u8>> = Vec::new();
        let mut pos: usize = 0;
        proof {
            assert(r@.len() * k == 0) by (nonlinear_arith)
                requires
                    r@.len() == 0,
            ;
        }
        while pos < l
            invariant
                k == chunk_size,
                k > 0,
                pos <= l,
                l == self.region@.len(),
                l <= usize::MAX,
                r@.len() * k <= l ==> pos == r@.len() * k,
                r@.len() * k > l ==> pos == l,
                r@.len() > 0 ==> (r@.len() - 1) * k < l,
                forall|c: int|
                    0 <= c < r@.len() ==> r@[c]@ == chunk_at(self.contents(), k as int, c),
            decreases l - pos,
        {
            let take = if l - pos < k {
                l - pos
            } else {
                k
            };
            let mut chunk: Vec<u8> = Vec::new();
            let mut j: usize = 0;
            while j < take
                invariant
                    j <= take,
                    pos + take <= l,
                    l == self.region@.len(),
                    l <= usize::MAX,
                    chunk@.len() == j,
                    forall|t: int| 0 <= t < j ==> chunk@[t] == self.contents()[pos + t],
                decreases take - j,
            {
                let b = self.region[pos + j];
                chunk.push(b);
                j += 1;
            }
            proof {
                let ki = k as int;
                let n = r@.len() as int;
                assert((n + 1) * ki == n * ki + ki) by (nonlinear_arith);
                assert(n * ki <= l);
                assert(pos == n * ki);
                assert(chunk@ =~= chunk_at(self.contents(), ki, n));
            }
            let ghost prev_r = r@;
            let ghost ch = chunk@;
            r.push(chunk);
            pos += take;
            proof {
                let ki = k as int;
                let n = prev_r.len() as int;
                assert((n + 1) * ki == n * ki + ki) by (nonlinear_arith);
                assert(n * ki >= 0) by (nonlinear_arith)
                    requires
                        n >= 0,
                        ki > 0,
                ;
                assert forall|c: int| 0 <= c < r@.len() implies r@[c]@ == chunk_at(
                    self.contents(),
                    ki,
                    c,
                ) by {
                    if c < prev_r.len() {
                        assert(r@[c] == prev_r[c]);
                    } else {
                        assert(c == prev_r.len());
                        assert(r@[c]@ == ch);
                    }
                }
            }
        }
        proof {
            let ki = k as int;
            let n = r@.len() as int;
            if l == 0 {
                assert(n * ki > 0 ==> n > 0) by (nonlinear_arith)
                    requires
                        ki > 0,
                ;
                assert(n == 0 || n * ki > 0) by (nonlinear_arith)
                    requires
                        ki > 0,
                        n >= 0,
                ;
                assert(n == 0);
                assert(0int == 0int * ki + 0) by (nonlinear_arith);
                lemma_fundamental_div_mod_converse_div(0, ki, 0, 0);
                lemma_fundamental_div_mod_converse_mod(0, ki, 0, 0);
                assert(spec_ceil_div(0, ki) == 0);
            } else {
                assert(n > 0) by {
                    if n == 0 {
                        assert(n * ki == 0) by (nonlinear_arith)
                            requires
                                n == 0,
                        ;
                    }
                }
                assert(n * ki >= l);
                lemma_ceil_div_from_bounds(l as int, ki, n);
            }
        }
        r
    }
}

/// Collected configuration for constructing a mapping.
///
/// Every option has a default: read-write mode, no size, policy `Never`, no
/// touch, no huge pages. The huge-page request is advisory and, with no
/// huge-page support compiled into this core, accepted and silently ignored:
/// construction never fails because huge pages are unavailable.
pub struct MmapBuilder {
    pub mode: MmapMode,
    pub size: Option<usize>,
    pub flush_policy: FlushPolicy,
    pub touch_hint: TouchHint,
    pub huge_pages: bool,
}

impl MemoryMappedFile {
    /// Start collecting configuration for a mapping.
    pub fn builder() -> (r: MmapBuilder)
        ensures
            r == (MmapBuilder {
                mode: MmapMode::ReadWrite,
                size: None::<usize>,
                flush_policy: FlushPolicy::Never,
                touch_hint: TouchHint::Never,
                huge_pages: false,
            }),
    {
        MmapBuilder {
            mode: MmapMode::ReadWrite,
            size: None,
            flush_policy: FlushPolicy::Never,
            touch_hint: TouchHint::Never,
            huge_pages: false,
        }
    }
}

impl MmapBuilder {
    /// Access mode of the mapping to build.
    pub fn mode(self, mode: MmapMode) -> (r: MmapBuilder)
        ensures
            r == (MmapBuilder { mode, ..self }),
    {
        MmapBuilder { mode, ..self }
    }

    /// Size in bytes when creating a new file; not needed to open an
    /// existing one.
    pub fn size(self, size: usize) -> (r: MmapBuilder)
        ensures
            r == (MmapBuilder { size: Some(size), ..self }),
    {
        MmapBuilder { size: Some(size), ..self }
    }

    /// Flush policy; meaningful in read-write mode only, accepted without
    /// effect on a read-only mapping.
    pub fn flush_policy(self, flush_policy: FlushPolicy) -> (r: MmapBuilder)
        ensures
            r == (MmapBuilder { flush_policy, ..self }),
    {
        MmapBuilder { flush_policy, ..self }
    }

    /// Whether to touch every page at the end of construction.
    pub fn touch_hint(self, touch_hint: TouchHint) -> (r: MmapBuilder)
        ensures
            r == (MmapBuilder { touch_hint, ..self }),
    {
        MmapBuilder { touch_hint, ..self }
    }

    /// Advisory request for huge pages; accepted and silently ignored here.
    pub fn huge_pages(self, huge_pages: bool) -> (r: MmapBuilder)
        ensures
            r == (MmapBuilder { huge_pages, ..self }),
    {
        MmapBuilder { huge_pages, ..self }
    }

    /// Create a new backing file of the configured size, all zero bytes, and
    /// map it read-write, applying the touch hint and storing the policy (a
    /// time-based policy's background worker is the shell's to start).
    ///
    /// Creating demands read-write mode and a size: anything else is
    /// `InvalidConfig`. A zero or over-limit size is `InvalidSize`.
    pub fn create(self) -> (r: Result<MemoryMappedFile, MmapError>)
        ensures
            self.mode != MmapMode::ReadWrite || self.size is None ==> r == Err::<
                MemoryMappedFile,
                MmapError,
            >(MmapError::InvalidConfig),
            self.mode == MmapMode::ReadWrite && self.size is Some && (self.size->Some_0 == 0
                || self.size->Some_0 > MAX_MAP_LEN) ==> r == Err::<MemoryMappedFile, MmapError>(
                MmapError::InvalidSize,
            ),
            self.mode == MmapMode::ReadWrite && self.size is Some && 0 < self.size->Some_0
                && self.size->Some_0 <= MAX_MAP_LEN ==> {
                let m = r->Ok_0;
                &&& r is Ok
                &&& m.wf()
                &&& m.mode_spec() == MmapMode::ReadWrite
                &&& m.policy_spec() == self.flush_policy
                &&& m.contents() == zero_bytes(self.size->Some_0 as int)
                &&& m.persisted() == zero_bytes(self.size->Some_0 as int)
                &&& m.pending_bytes() == 0
                &&& m.pending_writes() == 0
                &&& m.flush_count() == 0
                &&& forall|pg: int|
                    0 <= pg < m.residency().len() ==> m.page_resident(pg) == (self.touch_hint
                        == TouchHint::Eager)
            },
    {
        if self.mode != MmapMode::ReadWrite {
            return Err(MmapError::InvalidConfig);
        }
        let s = match self.size {
            Option::Some(s) => s,
            Option::None => {
                return Err(MmapError::InvalidConfig);
            },
        };
        if s == 0 || s > MAX_MAP_LEN {
            return Err(MmapError::InvalidSize);
        }
        let mut m = MemoryMappedFile::assemble(
            MmapMode::ReadWrite,
            self.flush_policy,
            zero_vec(s),
        );
        if self.touch_hint == TouchHint::Eager {
            let _ = m.touch_pages();
        }
        Ok(m)
    }

    /// Map the bytes of an existing file, read by the shell, in the
    /// configured mode, applying the touch hint; a configured size is
    /// ignored. On a read-only mapping the configured policy has no effect
    /// and `Never` is kept instead.
    pub fn open(self, file: Vec<u8>) -> (r: Result<MemoryMappedFile, MmapError>)
        requires
            file@.len() <= MAX_MAP_LEN,
        ensures
            r is Ok,
            ({
                let m = r->Ok_0;
                &&& m.wf()
                &&& m.mode_spec() == self.mode
                &&& m.policy_spec() == if self.mode == MmapMode::ReadOnly {
                    FlushPolicy::Never
                } else {
                    self.flush_policy
                }
                &&& m.contents() == file@
                &&& m.persisted() == file@
                &&& m.pending_bytes() == 0
                &&& m.pending_writes() == 0
                &&& m.flush_count() == 0
                &&& forall|pg: int|
                    0 <= pg < m.residency().len() ==> m.page_resident(pg) == (self.touch_hint
                        == TouchHint::Eager)
            }),
    {
        let policy = if self.mode == MmapMode::ReadOnly {
            FlushPolicy::Never
        } else {
            self.flush_policy
        };
        let mut m = MemoryMappedFile::assemble(self.mode, policy, file);
        if self.touch_hint == TouchHint::Eager {
            let _ = m.touch_pages();
        }
        Ok(m)
    }
}

/// When a count of whole steps of `k` reaches `len` from strictly below in
/// one step, it is the number of `k`-sized chunks covering `len` bytes.
proof fn lemma_ceil_div_from_bounds(len: int, k: int, n: int)
    requires
        k > 0,
        len > 0,
        n * k >= len,
        (n - 1) * k < len,
    ensures
        n == spec_ceil_div(len, k),
{
    assert((n - 1) * k == n * k - k) by (nonlinear_arith);
    let t = len - (n - 1) * k;
    if t == k {
        assert(len == n * k + 0);
        lemma_fundamental_div_mod_converse_div(len, k, n, 0);
        lemma_fundamental_div_mod_converse_mod(len, k, n, 0);
    } else {
        assert(len == (n - 1) * k + t);
        lemma_fundamental_div_mod_converse_div(len, k, n - 1, t);
        lemma_fundamental_div_mod_converse_mod(len, k, n - 1, t);
    }
}

} // verus!

//! A slab of equal-size byte chunks with reference-counted handles.
//!
//! The pool owns every byte buffer used on the wire. A chunk is reachable
//! either through the free list or through live handles; an owned box gives
//! exclusive access, a shared arc gives counted immutable access, and a
//! sub-slice arc is an arc paired with a `(start, len)` window.
//!
//! Handles do not carry a pointer back to the pool: every operation that
//! reads a chunk or moves a reference count takes the pool explicitly, so
//! the accounting is visible in each contract.

use vstd::prelude::*;
use vstd::seq_lib::*;
use vstd::set_lib::*;

verus! {

/// Lifecycle of the pool: it must be initialized once before any allocation.
pub enum SlabState {
    Uninit,
    Initialized,
}

/// The slab pool: `num_chunks` chunks of `chunk_size` bytes each, a
/// reference count per chunk, and a FIFO free list of chunk indices.
pub struct BSlab {
    /// The byte storage, one inner vector per chunk.
    pub bufs: Vec<Vec<u8>>,
    /// Reference count of each chunk; zero exactly when the chunk is free.
    pub rcs: Vec<usize>,
    /// Free list; the front is the next chunk handed out.
    pub free: Vec<usize>,
    /// Number of chunks.
    pub n: usize,
    /// Size in bytes of each chunk.
    pub sz: usize,
    /// Whether `init` has run.
    pub state: SlabState,
}

/// An owned chunk: exclusive read and write access.
pub struct SlabBox {
    pub idx: usize,
}

/// A shared chunk: counted, immutable access.
pub struct SlabArc {
    pub idx: usize,
}

/// A counted view of `len` bytes starting at `start` within a shared chunk.
pub struct SlabSliceArc {
    pub arc: SlabArc,
    pub start: usize,
    pub len: usize,
}

/// A sub-slice arc whose bytes were checked to be valid UTF-8.
pub struct SlabStrArc {
    pub inner: SlabSliceArc,
}

/// Whether `core::str::from_utf8` accepts these bytes.
pub uninterp spec fn is_utf8(s: Seq<u8>) -> bool;

/// Relies on core::str::from_utf8: returns `Ok` exactly when the bytes are
/// valid UTF-8; the empty byte sequence is valid.
#[verifier::external_body]
fn utf8_check(s: &Vec<u8>) -> (r: bool)
    ensures
        r == is_utf8(s@),
        s@.len() == 0 ==> r,
{
    core::str::from_utf8(s.as_slice()).is_ok()
}

/// Check whether some bytes are valid UTF-8; the one place the library
/// tests the named predicate, for callers that must establish it.
pub fn bytes_are_utf8(s: &Vec<u8>) -> (r: bool)
    ensures
        r == is_utf8(s@),
{
    utf8_check(s)
}

impl BSlab {
    /// Number of chunks, as a mathematical value.
    pub open spec fn num_chunks(self) -> int {
        self.n as int
    }

    /// Chunk size, as a mathematical value.
    pub open spec fn chunk_size(self) -> int {
        self.sz as int
    }

    /// Whether `init` has completed.
    pub open spec fn initialized(self) -> bool {
        self.state is Initialized
    }

    /// Reference count of chunk `i`.
    pub open spec fn rc(self, i: int) -> int {
        self.rcs@[i] as int
    }

    /// Contents of chunk `i`.
    pub open spec fn chunk_bytes(self, i: int) -> Seq<u8> {
        self.bufs@[i]@
    }

    /// Contents seen through a sub-slice arc.
    pub open spec fn slice_bytes(self, s: SlabSliceArc) -> Seq<u8> {
        self.chunk_bytes(s.arc.idx as int).subrange(s.start as int, s.start as int + s.len as int)
    }

    /// A box is valid while its chunk's count is exactly one.
    pub open spec fn valid_box(self, b: SlabBox) -> bool {
        &&& self.initialized()
        &&& b.idx < self.n
        &&& self.rcs@[b.idx as int] == 1
    }

    /// An arc is valid while its chunk's count is at least one.
    pub open spec fn valid_arc(self, a: SlabArc) -> bool {
        &&& self.initialized()
        &&& a.idx < self.n
        &&& self.rcs@[a.idx as int] >= 1
    }

    /// A sub-slice arc is valid while its arc is, and its window fits the chunk.
    pub open spec fn valid_slice(self, s: SlabSliceArc) -> bool {
        &&& self.valid_arc(s.arc)
        &&& s.start < self.sz
        &&& s.start + s.len <= self.sz
    }

    /// Everything the pool's operations preserve: sizes agree, the free list
    /// holds each free chunk exactly once, and a chunk's count is zero
    /// exactly when it is free-listed.
    pub open spec fn wf(self) -> bool {
        &&& 1 <= self.n
        &&& 1 <= self.sz
        &&& self.n * self.sz <= usize::MAX
        &&& if self.initialized() {
            &&& self.bufs@.len() == self.n
            &&& self.rcs@.len() == self.n
            &&& forall|i: int| 0 <= i < self.n ==> (#[trigger] self.bufs@[i])@.len() == self.sz
            &&& self.free@.no_duplicates()
            &&& forall|k: int| 0 <= k < self.free@.len() ==> (#[trigger] self.free@[k]) < self.n
            &&& forall|i: int|
                0 <= i < self.n ==> ((self.rcs@[i] == 0) <==> self.free@.contains(i as usize))
        } else {
            self.bufs@.len() == 0 && self.rcs@.len() == 0 && self.free@.len() == 0
        }
    }

    /// The two pools agree on everything a specification can observe.
    pub open spec fn eq_view(self, other: BSlab) -> bool {
        &&& self.bufs@ == other.bufs@
        &&& self.rcs@ == other.rcs@
        &&& self.free@ == other.free@
        &&& self.n == other.n
        &&& self.sz == other.sz
        &&& self.state == other.state
    }

    /// The set of chunk indices whose reference count is positive.
    pub open spec fn allocated_set(self) -> Set<int> {
        set_int_range(0, self.num_chunks()).filter(|i: int| self.rc(i) > 0)
    }

    /// Create a pool of `n` chunks of `sz` bytes. It must be initialized
    /// with [`BSlab::init`] before any allocation succeeds.
    pub fn new(n: usize, sz: usize) -> (r: Self)
        requires
            1 <= n,
            1 <= sz,
            n * sz <= usize::MAX,
        ensures
            r.wf(),
            !r.initialized(),
            r.n == n,
            r.sz == sz,
    {
        BSlab { bufs: Vec::new(), rcs: Vec::new(), free: Vec::new(), n, sz, state: SlabState::Uninit }
    }

    /// Is the pool initialized?
    pub fn is_init(&self) -> (r: Result<(), ()>)
        ensures
            r is Ok <==> self.initialized(),
    {
        match self.state {
            SlabState::Initialized => Ok(()),
            SlabState::Uninit => Err(()),
        }
    }

    /// Initialize the pool: zero every chunk, set every count to zero, and
    /// fill the free list with the indices `0..n` in order. Fails if and
    /// only if the pool was already initialized.
    pub fn init(&mut self) -> (r: Result<(), ()>)
        requires
            old(self).wf(),
        ensures
            final(self).wf(),
            final(self).n == old(self).n,
            final(self).sz == old(self).sz,
            r is Err <==> old(self).initialized(),
            old(self).initialized() ==> *final(self) == *old(self),
            !old(self).initialized() ==> {
                &&& final(self).initialized()
                &&& forall|i: int| 0 <= i < final(self).num_chunks() ==> final(self).rc(i) == 0
                &&& forall|i: int|
                    0 <= i < final(self).num_chunks() ==> final(self).chunk_bytes(i) =~= Seq::new(
                        old(self).sz as nat,
                        |j: int| 0u8,
                    )
                &&& final(self).free@ =~= Seq::new(old(self).n as nat, |i: int| i as usize)
            },
    {
        match self.state {
            SlabState::Initialized => Err(()),
            SlabState::Uninit => {
                let n = self.n;
                let sz = self.sz;
                let ghost zero_chunk = Seq::new(sz as nat, |j: int| 0u8);
                let mut i: usize = 0;
                while i < n
                    invariant
                        i <= n,
                        self.bufs@.len() == i,
                        self.rcs@.len() == i,
                        self.free@.len() == i,
                        self.n == n,
                        self.sz == sz,
                        zero_chunk == Seq::new(sz as nat, |j: int| 0u8),
                        forall|k: int| 0 <= k < i ==> (#[trigger] self.bufs@[k])@ =~= zero_chunk,
                        forall|k: int| 0 <= k < i ==> (#[trigger] self.rcs@[k]) == 0,
                        forall|k: int| 0 <= k < i ==> (#[trigger] self.free@[k]) == k,
                        self.state is Uninit,
                    decreases n - i,
                {
                    let mut chunk: Vec<u8> = Vec::new();
                    let mut j: usize = 0;
                    while j < sz
                        invariant
                            j <= sz,
                            chunk@.len() == j,
                            forall|k: int| 0 <= k < j ==> (#[trigger] chunk@[k]) == 0u8,
                        decreases sz - j,
                    {
                        chunk.push(0u8);
                        j += 1;
                    }
                    assert(chunk@ =~= zero_chunk);
                    self.bufs.push(chunk);
                    self.rcs.push(0);
                    self.free.push(i);
                    i += 1;
                }
                self.state = SlabState::Initialized;
                proof {
                    assert(self.free@ =~= Seq::new(n as nat, |i: int| i as usize));
                    assert forall|i: int|
                        0 <= i < self.n implies ((self.rcs@[i] == 0) <==> self.free@.contains(
                        i as usize,
                    )) by {
                        assert(self.free@[i] == i as usize);
                    }
                }
                Ok(())
            },
        }
    }

    /// Chunk size accessor.
    pub fn size_of_chunk(&self) -> (r: usize)
        ensures
            r == self.sz,
    {
        self.sz
    }

    /// Allocate an owned chunk: pop the front of the free list and set its
    /// count to one. Returns `None` exactly when the pool is uninitialized
    /// or the free list is empty.
    pub fn alloc_box(&mut self) -> (r: Option<SlabBox>)
        requires
            old(self).wf(),
        ensures
            final(self).wf(),
            final(self).n == old(self).n,
            final(self).sz == old(self).sz,
            final(self).initialized() == old(self).initialized(),
            match r {
                None => {
                    &&& *final(self) == *old(self)
                    &&& (!old(self).initialized() || old(self).free@.len() == 0)
                },
                Some(b) => {
                    &&& old(self).initialized()
                    &&& old(self).free@.len() > 0
                    &&& b.idx == old(self).free@[0]
                    &&& final(self).free@ == old(self).free@.subrange(1, old(self).free@.len() as int)
                    &&& final(self).rcs@ == old(self).rcs@.update(b.idx as int, 1usize)
                    &&& final(self).bufs@ == old(self).bufs@
                    &&& final(self).valid_box(b)
                },
            },
    {
        match self.state {
            SlabState::Uninit => None,
            SlabState::Initialized => {
                if self.free.len() == 0 {
                    None
                } else {
                    let idx = self.free.remove(0);
                    proof {
                        assert(old(self).free@.contains(old(self).free@[0]));
                    }
                    self.rcs[idx] = 1;
                    proof {
                        let newfree = self.free@;
                        assert forall|i: int|
                            0 <= i < self.n implies ((self.rcs@[i] == 0) <==> newfree.contains(
                            i as usize,
                        )) by {
                            if i == idx as int {
                                if newfree.contains(idx) {
                                    let k = choose|k: int|
                                        0 <= k < newfree.len() && newfree[k] == idx;
                                    assert(old(self).free@[k + 1] == idx);
                                    assert(old(self).free@[0] == idx);
                                }
                            } else {
                                if old(self).free@.contains(i as usize) {
                                    let k = choose|k: int|
                                        0 <= k < old(self).free@.len() && old(self).free@[k]
                                            == i as usize;
                                    assert(k != 0);
                                    assert(newfree[k - 1] == i as usize);
                                }
                                if newfree.contains(i as usize) {
                                    let k = choose|k: int|
                                        0 <= k < newfree.len() && newfree[k] == i as usize;
                                    assert(old(self).free@[k + 1] == i as usize);
                                }
                            }
                        }
                    }
                    Some(SlabBox { idx })
                }
            },
        }
    }

    /// Write one byte into an owned chunk.
    pub fn box_write_byte(&mut self, b: &SlabBox, i: usize, v: u8)
        requires
            old(self).wf(),
            old(self).valid_box(*b),
            i < old(self).sz,
        ensures
            final(self).wf(),
            *final(self) == (BSlab {
                bufs: final(self).bufs,
                ..*old(self)
            }),
            final(self).bufs@ == old(self).bufs@.update(
                b.idx as int,
                final(self).bufs@[b.idx as int],
            ),
            final(self).chunk_bytes(b.idx as int) == old(self).chunk_bytes(b.idx as int).update(
                i as int,
                v,
            ),
    {
        let chunk = &mut self.bufs[b.idx];
        chunk[i] = v;
        proof {
            assert(self.bufs@ =~= old(self).bufs@.update(b.idx as int, self.bufs@[b.idx as int]));
        }
    }

    /// Copy `src` into an owned chunk starting at `off`.
    pub fn box_copy_from_slice(&mut self, b: &SlabBox, off: usize, src: &Vec<u8>)
        requires
            old(self).wf(),
            old(self).valid_box(*b),
            off + src@.len() <= old(self).sz,
        ensures
            final(self).wf(),
            *final(self) == (BSlab {
                bufs: final(self).bufs,
                ..*old(self)
            }),
            final(self).bufs@ == old(self).bufs@.update(
                b.idx as int,
                final(self).bufs@[b.idx as int],
            ),
            final(self).chunk_bytes(b.idx as int) =~= old(self).chunk_bytes(b.idx as int).subrange(
                0,
                off as int,
            ) + src@ + old(self).chunk_bytes(b.idx as int).subrange(
                off + src@.len(),
                old(self).sz as int,
            ),
    {
        let mut k: usize = 0;
        while k < src.len()
            invariant
                old(self).wf(),
                self.wf(),
                old(self).valid_box(*b),
                self.valid_box(*b),
                k <= src@.len(),
                off + src@.len() <= self.sz,
                self.n == old(self).n,
                self.sz == old(self).sz,
                self.rcs == old(self).rcs,
                self.free == old(self).free,
                self.state == old(self).state,
                self.bufs@ == old(self).bufs@.update(b.idx as int, self.bufs@[b.idx as int]),
                self.chunk_bytes(b.idx as int).len() == self.sz,
                forall|j: int|
                    0 <= j < off ==> self.chunk_bytes(b.idx as int)[j] == old(self).chunk_bytes(
                        b.idx as int,
                    )[j],
                forall|j: int|
                    0 <= j < k ==> self.chunk_bytes(b.idx as int)[off + j] == src@[j],
                forall|j: int|
                    off + src@.len() <= j < self.sz ==> self.chunk_bytes(b.idx as int)[j] == old(
                        self,
                    ).chunk_bytes(b.idx as int)[j],
            decreases src@.len() - k,
        {
            let v = src[k];
            self.box_write_byte(b, off + k, v);
            k += 1;
        }
    }

    /// Read one byte of an owned chunk.
    pub fn box_read_byte(&self, b: &SlabBox, i: usize) -> (r: u8)
        requires
            self.wf(),
            self.valid_box(*b),
            i < self.sz,
        ensures
            r == self.chunk_bytes(b.idx as int)[i as int],
    {
        self.bufs[b.idx][i]
    }

    /// Copy the first `len` bytes of an owned chunk out into a vector.
    pub fn box_prefix_to_vec(&self, b: &SlabBox, len: usize) -> (r: Vec<u8>)
        requires
            self.wf(),
            self.valid_box(*b),
            len <= self.sz,
        ensures
            r@ == self.chunk_bytes(b.idx as int).subrange(0, len as int),
    {
        let mut out: Vec<u8> = Vec::new();
        let mut k: usize = 0;
        while k < len
            invariant
                self.wf(),
                self.valid_box(*b),
                k <= len <= self.sz,
                out@ =~= self.chunk_bytes(b.idx as int).subrange(0, k as int),
            decreases len - k,
        {
            let v = self.bufs[b.idx][k];
            out.push(v);
            k += 1;
            proof {
                assert(out@ =~= self.chunk_bytes(b.idx as int).subrange(0, k as int));
            }
        }
        out
    }

    /// Read one byte of a shared chunk.
    pub fn arc_read_byte(&self, a: &SlabArc, i: usize) -> (r: u8)
        requires
            self.wf(),
            self.valid_arc(*a),
            i < self.sz,
        ensures
            r == self.chunk_bytes(a.idx as int)[i as int],
    {
        self.bufs[a.idx][i]
    }

    /// Copy the window of a sub-slice arc out into a fresh vector.
    pub fn slice_to_vec(&self, s: &SlabSliceArc) -> (r: Vec<u8>)
        requires
            self.wf(),
            self.valid_slice(*s),
        ensures
            r@ == self.slice_bytes(*s),
    {
        let mut out: Vec<u8> = Vec::new();
        let mut k: usize = 0;
        while k < s.len
            invariant
                self.wf(),
                self.valid_slice(*s),
                k <= s.len,
                out@ =~= self.chunk_bytes(s.arc.idx as int).subrange(
                    s.start as int,
                    s.start as int + k as int,
                ),
            decreases s.len - k,
        {
            let v = self.bufs[s.arc.idx][s.start + k];
            out.push(v);
            k += 1;
            proof {
                assert(out@ =~= self.chunk_bytes(s.arc.idx as int).subrange(
                    s.start as int,
                    s.start as int + k as int,
                ));
            }
        }
        proof {
            assert(out@ =~= self.slice_bytes(*s));
        }
        out
    }

    /// Drop an owned box: its chunk's count goes from one to zero and the
    /// chunk returns to the back of the free list.
    pub fn drop_box(&mut self, b: SlabBox)
        requires
            old(self).wf(),
            old(self).valid_box(b),
        ensures
            final(self).wf(),
            *final(self) == (BSlab {
                rcs: final(self).rcs,
                free: final(self).free,
                ..*old(self)
            }),
            final(self).rcs@ == old(self).rcs@.update(b.idx as int, 0usize),
            final(self).free@ == old(self).free@.push(b.idx),
    {
        self.rcs[b.idx] = 0;
        self.free.push(b.idx);
        proof {
            lemma_free_push_ok(*old(self), *self, b.idx);
        }
    }

    /// Clone a shared arc: the chunk's count goes up by one.
    pub fn clone_arc(&mut self, a: &SlabArc) -> (r: SlabArc)
        requires
            old(self).wf(),
            old(self).valid_arc(*a),
            old(self).rc(a.idx as int) < usize::MAX,
        ensures
            final(self).wf(),
            r.idx == a.idx,
            *final(self) == (BSlab {
                rcs: final(self).rcs,
                ..*old(self)
            }),
            final(self).rcs@ == old(self).rcs@.update(
                a.idx as int,
                (old(self).rcs@[a.idx as int] + 1) as usize,
            ),
            final(self).valid_arc(*a),
            final(self).valid_arc(r),
    {
        let rc = self.rcs[a.idx];
        self.rcs[a.idx] = rc + 1;
        SlabArc { idx: a.idx }
    }

    /// Drop a shared arc: the chunk's count goes down by one, and on the
    /// one-to-zero transition the chunk returns to the free list.
    pub fn drop_arc(&mut self, a: SlabArc)
        requires
            old(self).wf(),
            old(self).valid_arc(a),
        ensures
            final(self).wf(),
            *final(self) == (BSlab {
                rcs: final(self).rcs,
                free: final(self).free,
                ..*old(self)
            }),
            final(self).rcs@ == old(self).rcs@.update(
                a.idx as int,
                (old(self).rcs@[a.idx as int] - 1) as usize,
            ),
            final(self).free@ == if old(self).rcs@[a.idx as int] == 1 {
                old(self).free@.push(a.idx)
            } else {
                old(self).free@
            },
            old(self).rcs@[a.idx as int] != 1 ==> final(self).free == old(self).free,
    {
        let rc = self.rcs[a.idx];
        self.rcs[a.idx] = rc - 1;
        if rc == 1 {
            self.free.push(a.idx);
            proof {
                lemma_free_push_ok(*old(self), *self, a.idx);
            }
        }
    }

    /// Drop a sub-slice arc: drops its contained arc.
    pub fn drop_slice(&mut self, s: SlabSliceArc)
        requires
            old(self).wf(),
            old(self).valid_slice(s),
        ensures
            final(self).wf(),
            *final(self) == (BSlab {
                rcs: final(self).rcs,
                free: final(self).free,
                ..*old(self)
            }),
            final(self).rcs@ == old(self).rcs@.update(
                s.arc.idx as int,
                (old(self).rcs@[s.arc.idx as int] - 1) as usize,
            ),
            final(self).free@ == if old(self).rcs@[s.arc.idx as int] == 1 {
                old(self).free@.push(s.arc.idx)
            } else {
                old(self).free@
            },
            old(self).rcs@[s.arc.idx as int] != 1 ==> final(self).free == old(self).free,
    {
        self.drop_arc(s.arc);
    }
}

/// Helper for re-establishing the free-list invariant after pushing a chunk
/// whose count was just set to zero.
proof fn lemma_free_push_ok(pre: BSlab, post: BSlab, idx: usize)
    requires
        pre.wf(),
        pre.initialized(),
        idx < pre.n,
        pre.rcs@[idx as int] >= 1,
        post.n == pre.n,
        post.sz == pre.sz,
        post.state == pre.state,
        post.bufs@ == pre.bufs@,
        post.rcs@ == pre.rcs@.update(idx as int, 0usize),
        post.free@ == pre.free@.push(idx),
    ensures
        post.wf(),
{
    assert(!pre.free@.contains(idx));
    assert forall|k: int| 0 <= k < post.free@.len() implies (#[trigger] post.free@[k]) < post.n by {
        if k < pre.free@.len() {
            assert(post.free@[k] == pre.free@[k]);
        }
    }
    assert(post.free@.no_duplicates()) by {
        assert forall|i: int, j: int|
            0 <= i < post.free@.len() && 0 <= j < post.free@.len() && i != j implies post.free@[i]
            != post.free@[j] by {
            if i < pre.free@.len() && j < pre.free@.len() {
            } else if i < pre.free@.len() {
                assert(pre.free@.contains(pre.free@[i]));
            } else if j < pre.free@.len() {
                assert(pre.free@.contains(pre.free@[j]));
            }
        }
    }
    assert forall|i: int|
        0 <= i < post.n implies ((post.rcs@[i] == 0) <==> post.free@.contains(i as usize)) by {
        if i == idx as int {
            assert(post.free@[post.free@.len() - 1] == idx);
        } else {
            if pre.free@.contains(i as usize) {
                let k = choose|k: int| 0 <= k < pre.free@.len() && pre.free@[k] == i as usize;
                assert(post.free@[k] == i as usize);
            }
            if post.free@.contains(i as usize) {
                let k = choose|k: int| 0 <= k < post.free@.len() && post.free@[k] == i as usize;
                assert(k < pre.free@.len());
                assert(pre.free@[k] == i as usize);
            }
        }
    }
}

impl SlabBox {
    /// Re-tag an owned box as a shared arc. The count stays at one; no
    /// bytes move.
    pub fn into_arc(self, slab: &BSlab) -> (r: SlabArc)
        requires
            slab.wf(),
            slab.valid_box(self),
        ensures
            r.idx == self.idx,
            slab.valid_arc(r),
    {
        SlabArc { idx: self.idx }
    }
}

impl SlabArc {
    /// A counted view of `len` bytes of this chunk starting at `start`.
    /// Succeeds exactly when the window fits the chunk; on success the
    /// chunk's count goes up by one and the view's contents equal the
    /// chunk's bytes over `[start, start + len)`.
    pub fn sub_slice_arc(&self, slab: &mut BSlab, start: usize, len: usize) -> (r: Result<
        SlabSliceArc,
        (),
    >)
        requires
            old(slab).wf(),
            old(slab).valid_arc(*self),
            old(slab).rc(self.idx as int) < usize::MAX,
        ensures
            final(slab).wf(),
            r is Ok <==> (start < old(slab).sz && start + len <= old(slab).sz),
            match r {
                Ok(s) => {
                    &&& s.arc.idx == self.idx
                    &&& s.start == start
                    &&& s.len == len
                    &&& *final(slab) == (BSlab {
                        rcs: final(slab).rcs,
                        ..*old(slab)
                    })
                    &&& final(slab).rcs@ == old(slab).rcs@.update(
                        self.idx as int,
                        (old(slab).rcs@[self.idx as int] + 1) as usize,
                    )
                    &&& final(slab).valid_slice(s)
                    &&& final(slab).slice_bytes(s) == old(slab).chunk_bytes(
                        self.idx as int,
                    ).subrange(start as int, start as int + len as int)
                },
                Err(()) => *final(slab) == *old(slab),
            },
    {
        let good_start = start < slab.sz;
        let good_len = len <= slab.sz && start <= slab.sz - len;
        if good_start && good_len {
            let arc = slab.clone_arc(self);
            Ok(SlabSliceArc { arc, start, len })
        } else {
            Err(())
        }
    }

    /// A counted view of the whole chunk; the count goes up by one.
    pub fn full_sub_slice_arc(&self, slab: &mut BSlab) -> (r: SlabSliceArc)
        requires
            old(slab).wf(),
            old(slab).valid_arc(*self),
            old(slab).rc(self.idx as int) < usize::MAX,
        ensures
            final(slab).wf(),
            r.arc.idx == self.idx,
            r.start == 0,
            r.len == old(slab).sz,
            *final(slab) == (BSlab {
                rcs: final(slab).rcs,
                ..*old(slab)
            }),
            final(slab).rcs@ == old(slab).rcs@.update(
                self.idx as int,
                (old(slab).rcs@[self.idx as int] + 1) as usize,
            ),
            final(slab).valid_slice(r),
            final(slab).slice_bytes(r) == old(slab).chunk_bytes(self.idx as int),
    {
        let len = slab.sz;
        let arc = slab.clone_arc(self);
        let r = SlabSliceArc { arc, start: 0, len };
        proof {
            assert(slab.slice_bytes(r) =~= old(slab).chunk_bytes(self.idx as int));
        }
        r
    }
}

impl SlabSliceArc {
    /// Length of the view.
    pub fn length(&self) -> (r: usize)
        ensures
            r == self.len,
    {
        self.len
    }

    /// A smaller counted view inside this view's own window; `start` is
    /// relative to this view. Succeeds exactly when the smaller window lies
    /// inside this one; on success the chunk's count goes up by one.
    pub fn sub_slice_arc(&self, slab: &mut BSlab, start: usize, len: usize) -> (r: Result<
        SlabSliceArc,
        (),
    >)
        requires
            old(slab).wf(),
            old(slab).valid_slice(*self),
            old(slab).rc(self.arc.idx as int) < usize::MAX,
        ensures
            final(slab).wf(),
            r is Ok <==> (start < self.len && start + len <= self.len),
            match r {
                Ok(s) => {
                    &&& s.arc.idx == self.arc.idx
                    &&& s.start == self.start + start
                    &&& s.len == len
                    &&& *final(slab) == (BSlab {
                        rcs: final(slab).rcs,
                        ..*old(slab)
                    })
                    &&& final(slab).rcs@ == old(slab).rcs@.update(
                        self.arc.idx as int,
                        (old(slab).rcs@[self.arc.idx as int] + 1) as usize,
                    )
                    &&& final(slab).valid_slice(s)
                    &&& final(slab).slice_bytes(s) == old(slab).slice_bytes(*self).subrange(
                        start as int,
                        start as int + len as int,
                    )
                },
                Err(()) => *final(slab) == *old(slab),
            },
    {
        let good_start = start < self.len;
        let good_len = len <= self.len && start <= self.len - len;
        if good_start && good_len {
            let arc = slab.clone_arc(&self.arc);
            let s = SlabSliceArc { arc, start: self.start + start, len };
            proof {
                assert(slab.slice_bytes(s) =~= old(slab).slice_bytes(*self).subrange(
                    start as int,
                    start as int + len as int,
                ));
            }
            Ok(s)
        } else {
            Err(())
        }
    }

    /// Convert this view into a string view. Succeeds exactly when the
    /// bytes are valid UTF-8; either way the view is consumed, so on
    /// failure the chunk's count goes down by one.
    pub fn into_str_arc(self, slab: &mut BSlab) -> (r: Result<SlabStrArc, ()>)
        requires
            old(slab).wf(),
            old(slab).valid_slice(self),
        ensures
            final(slab).wf(),
            r is Ok <==> is_utf8(old(slab).slice_bytes(self)),
            match r {
                Ok(s) => {
                    &&& s.inner == self
                    &&& *final(slab) == *old(slab)
                    &&& final(slab).valid_slice(s.inner)
                },
                Err(()) => {
                    &&& *final(slab) == (BSlab {
                        rcs: final(slab).rcs,
                        free: final(slab).free,
                        ..*old(slab)
                    })
                    &&& final(slab).rcs@ == old(slab).rcs@.update(
                        self.arc.idx as int,
                        (old(slab).rcs@[self.arc.idx as int] - 1) as usize,
                    )
                    &&& final(slab).free@ == (if old(slab).rcs@[self.arc.idx as int] == 1 {
                        old(slab).free@.push(self.arc.idx)
                    } else {
                        old(slab).free@
                    })
                },
            },
    {
        let bytes = slab.slice_to_vec(&self);
        if utf8_check(&bytes) {
            Ok(SlabStrArc { inner: self })
        } else {
            slab.drop_slice(self);
            Err(())
        }
    }
}

impl SlabStrArc {
    /// Build a string view from a borrowed byte view, cloning the underlying
    /// arc. Succeeds exactly when the bytes are valid UTF-8; on success the
    /// chunk's count goes up by one, on failure it is unchanged.
    pub fn from_slab_slice(other: &SlabSliceArc, slab: &mut BSlab) -> (r: Result<SlabStrArc, ()>)
        requires
            old(slab).wf(),
            old(slab).valid_slice(*other),
            old(slab).rc(other.arc.idx as int) < usize::MAX,
        ensures
            final(slab).wf(),
            r is Ok <==> is_utf8(old(slab).slice_bytes(*other)),
            match r {
                Ok(s) => {
                    &&& s.inner.arc.idx == other.arc.idx
                    &&& s.inner.start == other.start
                    &&& s.inner.len == other.len
                    &&& final(slab).rcs@ == old(slab).rcs@.update(
                        other.arc.idx as int,
                        (old(slab).rcs@[other.arc.idx as int] + 1) as usize,
                    )
                    &&& *final(slab) == (BSlab {
                        rcs: final(slab).rcs,
                        ..*old(slab)
                    })
                },
                Err(()) => final(slab).eq_view(*old(slab)),
            },
    {
        let arc = slab.clone_arc(&other.arc);
        let clone = SlabSliceArc { arc, start: other.start, len: other.len };
        let r = clone.into_str_arc(slab);
        proof {
            if r is Err {
                assert(slab.rcs@ =~= old(slab).rcs@);
            }
        }
        r
    }
}

/// Conservation law: in a well-formed, initialized pool, the chunks on the
/// free list and the chunks held through live handles together account for
/// every chunk — the free list's length plus the number of chunks with a
/// positive reference count equals the pool's chunk count.
pub proof fn lemma_slab_conservation(s: BSlab)
    requires
        s.wf(),
        s.initialized(),
    ensures
        s.free@.len() + s.allocated_set().len() == s.num_chunks(),
        s.allocated_set().finite(),
{
    let n = s.num_chunks();
    let range = set_int_range(0, n);
    lemma_int_range(0, n);
    let free_set = range.filter(|i: int| s.rc(i) == 0);
    let alloc_set = s.allocated_set();
    assert(free_set.disjoint(alloc_set));
    assert(free_set + alloc_set =~= range);
    lemma_set_union_finite_implies_sets_finite(free_set, alloc_set);
    lemma_set_disjoint_lens(free_set, alloc_set);
    assert(free_set.len() + alloc_set.len() == n);

    // The free list enumerates `free_set` without repetition.
    let free_ints = s.free@.map_values(|x: usize| x as int);
    assert(free_ints.no_duplicates()) by {
        assert forall|i: int, j: int|
            0 <= i < free_ints.len() && 0 <= j < free_ints.len() && i != j implies free_ints[i]
            != free_ints[j] by {
            assert(s.free@[i] != s.free@[j]);
        }
    }
    free_ints.unique_seq_to_set();
    assert(free_ints.to_set() =~= free_set) by {
        assert forall|x: int| free_ints.to_set().contains(x) implies free_set.contains(x) by {
            let k = choose|k: int| 0 <= k < free_ints.len() && free_ints[k] == x;
            assert(s.free@[k] == x as usize);
            assert(s.free@.contains(x as usize));
            assert(0 <= x < n);
            assert(s.rc(x) == 0);
        }
        assert forall|x: int| free_set.contains(x) implies free_ints.to_set().contains(x) by {
            assert(s.rc(x) == 0);
            assert(s.free@.contains(x as usize));
            let k = choose|k: int| 0 <= k < s.free@.len() && s.free@[k] == x as usize;
            assert(free_ints[k] == x);
        }
    }
    assert(s.free@.len() == free_set.len());
}

} // verus!

//! Borrow-or-own views over slab bytes, and re-rooting.
//!
//! A deserialized frame references bytes inside the chunk it was decoded
//! from. Such a reference is a *borrowed* view: a span of chunk addresses
//! that holds no reference count. Before the originating arc goes away, a
//! borrowed view can be *re-rooted*: exchanged, against a key taken from
//! that arc, for an owning sub-slice arc over the same bytes.
//!
//! Chunk `i` of a pool with chunk size `sz` spans the addresses
//! `[i * sz, (i + 1) * sz)`; a borrowed view is a `(addr, len)` span in
//! that address space.

use vstd::prelude::*;
use vstd::arithmetic::div_mod::lemma_fundamental_div_mod_converse;
use vstd::arithmetic::mul::lemma_mul_inequality;

use crate::slab::{BSlab, SlabArc, SlabSliceArc, SlabStrArc, is_utf8};

verus! {

/// The footprint of an arc's chunk: its address span and its chunk index.
/// A borrowed view inside the span can be re-rooted to this chunk.
pub struct RerooterKey {
    /// First address of the chunk.
    pub start: usize,
    /// One past the last address of the chunk.
    pub end: usize,
    /// The chunk's index in the pool.
    pub idx: usize,
}

/// Either a borrowed span of chunk addresses, or an owning sub-slice arc.
pub enum ManagedArcSlab {
    Borrowed { addr: usize, len: usize },
    Owned(SlabSliceArc),
}

/// Either a borrowed span holding UTF-8 bytes, or an owning string arc.
pub enum ManagedArcStr {
    Borrowed { addr: usize, len: usize },
    Owned(SlabStrArc),
}

impl BSlab {
    /// A key is taken from a live arc and spans that arc's whole chunk.
    pub open spec fn valid_key(self, k: RerooterKey) -> bool {
        &&& self.initialized()
        &&& k.idx < self.n
        &&& self.rcs@[k.idx as int] >= 1
        &&& k.start == k.idx * self.sz
        &&& k.end == k.idx * self.sz + self.sz
    }

    /// A borrowed span lies inside one chunk of the pool.
    pub open spec fn valid_span(self, addr: int, len: int) -> bool {
        &&& 0 <= len
        &&& addr % self.chunk_size() + len <= self.chunk_size()
        &&& 0 <= addr
        &&& addr + len <= self.num_chunks() * self.chunk_size()
    }

    /// The bytes a borrowed span denotes; an empty span denotes no bytes.
    pub open spec fn span_bytes(self, addr: int, len: int) -> Seq<u8> {
        if len == 0 {
            Seq::empty()
        } else {
            let i = addr / self.chunk_size();
            let off = addr % self.chunk_size();
            self.chunk_bytes(i).subrange(off, off + len)
        }
    }

    /// Whether a borrow-or-own byte view is usable against this pool.
    pub open spec fn valid_managed(self, m: ManagedArcSlab) -> bool {
        match m {
            ManagedArcSlab::Borrowed { addr, len } => self.initialized() && self.valid_span(
                addr as int,
                len as int,
            ),
            ManagedArcSlab::Owned(s) => self.valid_slice(s),
        }
    }

    /// The bytes a borrow-or-own view denotes.
    pub open spec fn managed_bytes(self, m: ManagedArcSlab) -> Seq<u8> {
        match m {
            ManagedArcSlab::Borrowed { addr, len } => self.span_bytes(addr as int, len as int),
            ManagedArcSlab::Owned(s) => self.slice_bytes(s),
        }
    }

    /// Copy the bytes of a borrow-or-own view out into a fresh vector.
    pub fn managed_to_vec(&self, m: &ManagedArcSlab) -> (r: Vec<u8>)
        requires
            self.wf(),
            self.valid_managed(*m),
        ensures
            r@ == self.managed_bytes(*m),
    {
        match m {
            ManagedArcSlab::Owned(s) => self.slice_to_vec(s),
            ManagedArcSlab::Borrowed { addr, len } => {
                if *len == 0 {
                    let out: Vec<u8> = Vec::new();
                    proof {
                        assert(out@ =~= self.span_bytes(*addr as int, 0));
                    }
                    return out;
                }
                let idx = *addr / self.sz;
                let off = *addr % self.sz;
                proof {
                    lemma_span_chunk(*self, *addr as int, *len as int);
                }
                let mut out: Vec<u8> = Vec::new();
                let mut k: usize = 0;
                while k < *len
                    invariant
                        self.wf(),
                        self.initialized(),
                        k <= *len,
                        idx < self.n,
                        off + *len <= self.sz,
                        out@ =~= self.chunk_bytes(idx as int).subrange(
                            off as int,
                            off as int + k as int,
                        ),
                    decreases *len - k,
                {
                    let v = self.bufs[idx][off + k];
                    out.push(v);
                    k += 1;
                    proof {
                        assert(out@ =~= self.chunk_bytes(idx as int).subrange(
                            off as int,
                            off as int + k as int,
                        ));
                    }
                }
                proof {
                    assert(out@ =~= self.span_bytes(*addr as int, *len as int));
                }
                out
            },
        }
    }
}

/// Check whether a borrowed span holds valid UTF-8. A verified caller uses
/// this to establish a borrowed string view's validity before re-rooting it.
pub fn span_is_utf8(slab: &BSlab, addr: usize, len: usize) -> (r: bool)
    requires
        slab.wf(),
        slab.initialized(),
        slab.valid_span(addr as int, len as int),
    ensures
        r == is_utf8(slab.span_bytes(addr as int, len as int)),
{
    let bytes = slab.managed_to_vec(&ManagedArcSlab::Borrowed { addr, len });
    crate::slab::bytes_are_utf8(&bytes)
}

/// A span inside the pool's address range addresses a real chunk: its chunk
/// index is in range and its window fits that chunk.
proof fn lemma_span_chunk(s: BSlab, addr: int, len: int)
    requires
        s.wf(),
        s.initialized(),
        s.valid_span(addr, len),
        len > 0,
    ensures
        0 <= addr / s.chunk_size() < s.num_chunks(),
        addr % s.chunk_size() + len <= s.chunk_size(),
        addr / s.chunk_size() * s.chunk_size() + addr % s.chunk_size() == addr,
{
    let sz = s.chunk_size();
    let n = s.num_chunks();
    vstd::arithmetic::div_mod::lemma_fundamental_div_mod(addr, sz);
    assert(addr / sz >= 0) by (nonlinear_arith)
        requires addr >= 0, sz >= 1;
    if addr / sz >= n {
        assert(addr >= n * sz) by (nonlinear_arith)
            requires addr / sz >= n, sz >= 1, addr % sz >= 0, addr == sz * (addr / sz) + addr % sz;
        assert(false);
    }
}

/// A window of a key's chunk, addressed through the key, is a well-formed
/// span denoting exactly that window of the chunk.
pub proof fn lemma_borrow_in_key(slab: BSlab, k: RerooterKey, off: int, len: int)
    requires
        slab.wf(),
        slab.valid_key(k),
        0 <= off,
        0 <= len,
        off + len <= slab.chunk_size(),
    ensures
        slab.valid_span(k.start + off, len),
        len > 0 ==> slab.span_bytes(k.start + off, len) == slab.chunk_bytes(
            k.idx as int,
        ).subrange(off, off + len),
{
    let sz = slab.chunk_size();
    let n = slab.num_chunks();
    let addr = k.start + off;
    lemma_mul_inequality(k.idx as int + 1, n, sz);
    assert((k.idx as int + 1) * sz == k.idx as int * sz + sz) by (nonlinear_arith);
    if off < sz {
        lemma_fundamental_div_mod_converse(addr, sz, k.idx as int, off);
    } else {
        lemma_fundamental_div_mod_converse(addr, sz, k.idx as int + 1, 0);
    }
}

impl SlabArc {
    /// The key covering this arc's whole chunk.
    pub fn rerooter_key(&self, slab: &BSlab) -> (r: RerooterKey)
        requires
            slab.wf(),
            slab.valid_arc(*self),
        ensures
            slab.valid_key(r),
            r.idx == self.idx,
    {
        proof {
            lemma_mul_inequality(self.idx as int + 1, slab.n as int, slab.sz as int);
            assert((self.idx as int + 1) * (slab.sz as int) == self.idx as int * (slab.sz as int)
                + slab.sz as int) by (nonlinear_arith);
        }
        let start = self.idx * slab.sz;
        let end = start + slab.sz;
        RerooterKey { start, end, idx: self.idx }
    }
}

impl ManagedArcSlab {
    /// View an arc's whole chunk as an owned byte view; the chunk's count
    /// goes up by one.
    pub fn from_arc(arc: &SlabArc, slab: &mut BSlab) -> (r: ManagedArcSlab)
        requires
            old(slab).wf(),
            old(slab).valid_arc(*arc),
            old(slab).rc(arc.idx as int) < usize::MAX,
        ensures
            final(slab).wf(),
            *final(slab) == (BSlab { rcs: final(slab).rcs, ..*old(slab) }),
            final(slab).rcs@ == old(slab).rcs@.update(
                arc.idx as int,
                (old(slab).rcs@[arc.idx as int] + 1) as usize,
            ),
            final(slab).valid_managed(r),
            final(slab).managed_bytes(r) == old(slab).chunk_bytes(arc.idx as int),
            r is Owned,
    {
        ManagedArcSlab::Owned(arc.full_sub_slice_arc(slab))
    }

    /// View a sub-slice arc as an owned byte view, cloning it; the chunk's
    /// count goes up by one.
    pub fn from_slab_slice_arc(s: &SlabSliceArc, slab: &mut BSlab) -> (r: ManagedArcSlab)
        requires
            old(slab).wf(),
            old(slab).valid_slice(*s),
            old(slab).rc(s.arc.idx as int) < usize::MAX,
        ensures
            final(slab).wf(),
            *final(slab) == (BSlab { rcs: final(slab).rcs, ..*old(slab) }),
            final(slab).rcs@ == old(slab).rcs@.update(
                s.arc.idx as int,
                (old(slab).rcs@[s.arc.idx as int] + 1) as usize,
            ),
            final(slab).valid_managed(r),
            final(slab).managed_bytes(r) == old(slab).slice_bytes(*s),
            r is Owned,
    {
        let arc = slab.clone_arc(&s.arc);
        let clone = SlabSliceArc { arc, start: s.start, len: s.len };
        proof {
            assert(slab.slice_bytes(clone) =~= old(slab).slice_bytes(*s));
        }
        ManagedArcSlab::Owned(clone)
    }

    /// Whether re-rooting this view against `k` succeeds: an owned view
    /// always does; a borrowed view does exactly when it is non-empty and
    /// starts inside the key's span.
    pub open spec fn reroots_ok(self, k: RerooterKey, sz: int) -> bool {
        match self {
            ManagedArcSlab::Owned(_) => true,
            ManagedArcSlab::Borrowed { addr, len } => {
                &&& len > 0
                &&& k.start <= addr < k.end
                &&& addr - k.start + len <= sz
            },
        }
    }

    /// Exchange a borrowed view for an owning sub-slice arc of the key's
    /// chunk. An owned view is returned unchanged. A borrowed view must be
    /// non-empty and lie inside the key's span: the owned view then covers
    /// exactly the same addresses, holds the same bytes, and takes one new
    /// reference count on the key's chunk. Outside the span the answer is
    /// `None` and the pool is untouched.
    pub fn reroot_with_key(self, key: &RerooterKey, slab: &mut BSlab) -> (r: Option<
        ManagedArcSlab,
    >)
        requires
            old(slab).wf(),
            old(slab).valid_key(*key),
            old(slab).valid_managed(self),
            old(slab).rc(key.idx as int) < usize::MAX,
        ensures
            final(slab).wf(),
            r is Some <==> self.reroots_ok(*key, old(slab).chunk_size()),
            match r {
                None => *final(slab) == *old(slab),
                Some(m) => {
                    &&& m is Owned
                    &&& (self is Owned ==> m == self && *final(slab) == *old(slab))
                    &&& (self is Borrowed ==> {
                        &&& m matches ManagedArcSlab::Owned(ssa)
                        &&& ssa.arc.idx == key.idx
                        &&& key.start + ssa.start == self->Borrowed_addr
                        &&& ssa.len == self->Borrowed_len
                        &&& *final(slab) == (BSlab { rcs: final(slab).rcs, ..*old(slab) })
                        &&& final(slab).rcs@ == old(slab).rcs@.update(
                            key.idx as int,
                            (old(slab).rcs@[key.idx as int] + 1) as usize,
                        )
                        &&& final(slab).valid_managed(m)
                        &&& final(slab).managed_bytes(m) == old(slab).managed_bytes(self)
                    })
                },
            },
    {
        match self {
            ManagedArcSlab::Owned(e) => Some(ManagedArcSlab::Owned(e)),
            ManagedArcSlab::Borrowed { addr, len } => {
                if len == 0 {
                    return None;
                }
                if key.start <= addr && addr < key.end {
                    let off = addr - key.start;
                    proof {
                        lemma_span_chunk(*slab, addr as int, len as int);
                        lemma_fundamental_div_mod_converse(
                            addr as int,
                            slab.sz as int,
                            key.idx as int,
                            off as int,
                        );
                    }
                    let arc = SlabArc { idx: key.idx };
                    match arc.sub_slice_arc(slab, off, len) {
                        Ok(ssa) => {
                            proof {
                                assert(slab.slice_bytes(ssa) =~= old(slab).span_bytes(
                                    addr as int,
                                    len as int,
                                ));
                            }
                            Some(ManagedArcSlab::Owned(ssa))
                        },
                        Err(()) => None,
                    }
                } else {
                    None
                }
            },
        }
    }
}

impl ManagedArcStr {
    /// View a string arc as an owned string view, cloning it; the chunk's
    /// count goes up by one.
    pub fn from_slab_str_arc(s: &SlabStrArc, slab: &mut BSlab) -> (r: ManagedArcStr)
        requires
            old(slab).wf(),
            old(slab).valid_slice(s.inner),
            old(slab).rc(s.inner.arc.idx as int) < usize::MAX,
        ensures
            final(slab).wf(),
            *final(slab) == (BSlab { rcs: final(slab).rcs, ..*old(slab) }),
            final(slab).rcs@ == old(slab).rcs@.update(
                s.inner.arc.idx as int,
                (old(slab).rcs@[s.inner.arc.idx as int] + 1) as usize,
            ),
            r matches ManagedArcStr::Owned(t) && t.inner.arc.idx == s.inner.arc.idx
                && t.inner.start == s.inner.start && t.inner.len == s.inner.len,
            r.str_bytes(*final(slab)) == old(slab).slice_bytes(s.inner),
    {
        let arc = slab.clone_arc(&s.inner.arc);
        let clone = SlabSliceArc { arc, start: s.inner.start, len: s.inner.len };
        proof {
            assert(slab.slice_bytes(clone) =~= old(slab).slice_bytes(s.inner));
        }
        ManagedArcStr::Owned(SlabStrArc { inner: clone })
    }

    /// Whether a borrow-or-own string view is usable against this pool:
    /// shapes as for bytes, and the bytes are valid UTF-8.
    pub open spec fn str_bytes(self, slab: BSlab) -> Seq<u8> {
        match self {
            ManagedArcStr::Borrowed { addr, len } => slab.span_bytes(addr as int, len as int),
            ManagedArcStr::Owned(s) => slab.slice_bytes(s.inner),
        }
    }

    /// Validity of a borrow-or-own string view.
    pub open spec fn valid_str(self, slab: BSlab) -> bool {
        match self {
            ManagedArcStr::Borrowed { addr, len } => slab.initialized() && slab.valid_span(
                addr as int,
                len as int,
            ) && is_utf8(slab.span_bytes(addr as int, len as int)),
            ManagedArcStr::Owned(s) => slab.valid_slice(s.inner) && is_utf8(
                slab.slice_bytes(s.inner),
            ),
        }
    }

    /// Whether re-rooting this string view against `k` succeeds.
    pub open spec fn reroots_ok(self, k: RerooterKey, sz: int) -> bool {
        match self {
            ManagedArcStr::Owned(_) => true,
            ManagedArcStr::Borrowed { addr, len } => {
                &&& len > 0
                &&& k.start <= addr < k.end
                &&& addr - k.start + len <= sz
            },
        }
    }

    /// Exchange a borrowed string view for an owning string arc of the
    /// key's chunk, as [`ManagedArcSlab::reroot_with_key`] does for bytes.
    pub fn reroot_with_key(self, key: &RerooterKey, slab: &mut BSlab) -> (r: Option<ManagedArcStr>)
        requires
            old(slab).wf(),
            old(slab).valid_key(*key),
            self.valid_str(*old(slab)),
            old(slab).rc(key.idx as int) < usize::MAX,
        ensures
            final(slab).wf(),
            r is Some <==> self.reroots_ok(*key, old(slab).chunk_size()),
            match r {
                None => *final(slab) == *old(slab),
                Some(m) => {
                    &&& m is Owned
                    &&& (self is Owned ==> m == self && *final(slab) == *old(slab))
                    &&& (self is Borrowed ==> {
                        &&& *final(slab) == (BSlab { rcs: final(slab).rcs, ..*old(slab) })
                        &&& final(slab).rcs@ == old(slab).rcs@.update(
                            key.idx as int,
                            (old(slab).rcs@[key.idx as int] + 1) as usize,
                        )
                        &&& m.valid_str(*final(slab))
                        &&& m.str_bytes(*final(slab)) == self.str_bytes(*old(slab))
                    })
                },
            },
    {
        match self {
            ManagedArcStr::Owned(e) => Some(ManagedArcStr::Owned(e)),
            ManagedArcStr::Borrowed { addr, len } => {
                if len == 0 {
                    return None;
                }
                if key.start <= addr && addr < key.end {
                    let off = addr - key.start;
                    proof {
                        lemma_span_chunk(*slab, addr as int, len as int);
                        lemma_fundamental_div_mod_converse(
                            addr as int,
                            slab.sz as int,
                            key.idx as int,
                            off as int,
                        );
                    }
                    let arc = SlabArc { idx: key.idx };
                    match arc.sub_slice_arc(slab, off, len) {
                        Ok(ssa) => {
                            proof {
                                assert(slab.slice_bytes(ssa) =~= old(slab).span_bytes(
                                    addr as int,
                                    len as int,
                                ));
                            }
                            match ssa.into_str_arc(slab) {
                                Ok(sa) => Some(ManagedArcStr::Owned(sa)),
                                Err(()) => None,
                            }
                        },
                        Err(()) => None,
                    }
                } else {
                    None
                }
            },
        }
    }
}

/// Restore a value deserialized out of an arc's chunk to owned views rooted
/// in that chunk. For types without borrowed views this is the identity.
pub trait Reroot: Sized {
    /// The re-rooted shape of `Self`.
    type Retval;

    /// What re-rooting a value of this type against `key` asks of the pool.
    spec fn reroot_req(self, key: RerooterKey, slab: BSlab) -> bool;

    /// What re-rooting a value of this type promises: each implementation
    /// opens this to its exact behavior, so every caller of the trait walk
    /// learns the full outcome.
    spec fn reroot_ens(
        self,
        key: RerooterKey,
        pre: BSlab,
        post: BSlab,
        r: Result<Self::Retval, ()>,
    ) -> bool;

    /// Rebuild `self` with every borrowed view exchanged for an owned one
    /// against `key`.
    fn reroot(self, key: &RerooterKey, slab: &mut BSlab) -> (r: Result<Self::Retval, ()>)
        requires
            self.reroot_req(*key, *old(slab)),
        ensures
            final(slab).wf(),
            self.reroot_ens(*key, *old(slab), *final(slab), r);
}

impl Reroot for ManagedArcSlab {
    type Retval = ManagedArcSlab;

    open spec fn reroot_req(self, key: RerooterKey, slab: BSlab) -> bool {
        &&& slab.wf()
        &&& slab.valid_key(key)
        &&& slab.valid_managed(self)
        &&& slab.rc(key.idx as int) < usize::MAX
    }

    open spec fn reroot_ens(
        self,
        key: RerooterKey,
        pre: BSlab,
        post: BSlab,
        r: Result<ManagedArcSlab, ()>,
    ) -> bool {
        &&& (r is Ok <==> self.reroots_ok(key, pre.chunk_size()))
        &&& match r {
            Err(()) => post == pre,
            Ok(m) => {
                &&& m is Owned
                &&& (self is Owned ==> m == self && post == pre)
                &&& (self is Borrowed ==> {
                    &&& m matches ManagedArcSlab::Owned(ssa)
                    &&& ssa.arc.idx == key.idx
                    &&& key.start + ssa.start == self->Borrowed_addr
                    &&& ssa.len == self->Borrowed_len
                    &&& post == (BSlab { rcs: post.rcs, ..pre })
                    &&& post.rcs@ == pre.rcs@.update(
                        key.idx as int,
                        (pre.rcs@[key.idx as int] + 1) as usize,
                    )
                    &&& post.valid_managed(m)
                    &&& post.managed_bytes(m) == pre.managed_bytes(self)
                })
            },
        }
    }

    fn reroot(self, key: &RerooterKey, slab: &mut BSlab) -> (r: Result<ManagedArcSlab, ()>) {
        match self.reroot_with_key(key, slab) {
            Some(m) => Ok(m),
            None => Err(()),
        }
    }
}


impl Reroot for ManagedArcStr {
    type Retval = ManagedArcStr;

    open spec fn reroot_req(self, key: RerooterKey, slab: BSlab) -> bool {
        &&& slab.wf()
        &&& slab.valid_key(key)
        &&& self.valid_str(slab)
        &&& slab.rc(key.idx as int) < usize::MAX
    }

    open spec fn reroot_ens(
        self,
        key: RerooterKey,
        pre: BSlab,
        post: BSlab,
        r: Result<ManagedArcStr, ()>,
    ) -> bool {
        &&& (r is Ok <==> self.reroots_ok(key, pre.chunk_size()))
        &&& match r {
            Err(()) => post == pre,
            Ok(m) => {
                &&& m is Owned
                &&& (self is Owned ==> m == self && post == pre)
                &&& (self is Borrowed ==> {
                    &&& post == (BSlab { rcs: post.rcs, ..pre })
                    &&& post.rcs@ == pre.rcs@.update(
                        key.idx as int,
                        (pre.rcs@[key.idx as int] + 1) as usize,
                    )
                    &&& m.valid_str(post)
                    &&& m.str_bytes(post) == self.str_bytes(pre)
                })
            },
        }
    }

    fn reroot(self, key: &RerooterKey, slab: &mut BSlab) -> (r: Result<ManagedArcStr, ()>) {
        match self.reroot_with_key(key, slab) {
            Some(m) => Ok(m),
            None => Err(()),
        }
    }
}

impl Reroot for u8 {
    type Retval = u8;

    open spec fn reroot_req(self, key: RerooterKey, slab: BSlab) -> bool {
        slab.wf()
    }

    open spec fn reroot_ens(
        self,
        key: RerooterKey,
        pre: BSlab,
        post: BSlab,
        r: Result<u8, ()>,
    ) -> bool {
        r == Ok::<u8, ()>(self) && post == pre
    }

    fn reroot(self, key: &RerooterKey, slab: &mut BSlab) -> (r: Result<u8, ()>) {
        Ok(self)
    }
}

impl Reroot for u16 {
    type Retval = u16;

    open spec fn reroot_req(self, key: RerooterKey, slab: BSlab) -> bool {
        slab.wf()
    }

    open spec fn reroot_ens(
        self,
        key: RerooterKey,
        pre: BSlab,
        post: BSlab,
        r: Result<u16, ()>,
    ) -> bool {
        r == Ok::<u16, ()>(self) && post == pre
    }

    fn reroot(self, key: &RerooterKey, slab: &mut BSlab) -> (r: Result<u16, ()>) {
        Ok(self)
    }
}

impl Reroot for u32 {
    type Retval = u32;

    open spec fn reroot_req(self, key: RerooterKey, slab: BSlab) -> bool {
        slab.wf()
    }

    open spec fn reroot_ens(
        self,
        key: RerooterKey,
        pre: BSlab,
        post: BSlab,
        r: Result<u32, ()>,
    ) -> bool {
        r == Ok::<u32, ()>(self) && post == pre
    }

    fn reroot(self, key: &RerooterKey, slab: &mut BSlab) -> (r: Result<u32, ()>) {
        Ok(self)
    }
}

impl Reroot for u64 {
    type Retval = u64;

    open spec fn reroot_req(self, key: RerooterKey, slab: BSlab) -> bool {
        slab.wf()
    }

    open spec fn reroot_ens(
        self,
        key: RerooterKey,
        pre: BSlab,
        post: BSlab,
        r: Result<u64, ()>,
    ) -> bool {
        r == Ok::<u64, ()>(self) && post == pre
    }

    fn reroot(self, key: &RerooterKey, slab: &mut BSlab) -> (r: Result<u64, ()>) {
        Ok(self)
    }
}

impl Reroot for bool {
    type Retval = bool;

    open spec fn reroot_req(self, key: RerooterKey, slab: BSlab) -> bool {
        slab.wf()
    }

    open spec fn reroot_ens(
        self,
        key: RerooterKey,
        pre: BSlab,
        post: BSlab,
        r: Result<bool, ()>,
    ) -> bool {
        r == Ok::<bool, ()>(self) && post == pre
    }

    fn reroot(self, key: &RerooterKey, slab: &mut BSlab) -> (r: Result<bool, ()>) {
        Ok(self)
    }
}

impl Reroot for i8 {
    type Retval = i8;

    open spec fn reroot_req(self, key: RerooterKey, slab: BSlab) -> bool {
        slab.wf()
    }

    open spec fn reroot_ens(
        self,
        key: RerooterKey,
        pre: BSlab,
        post: BSlab,
        r: Result<i8, ()>,
    ) -> bool {
        r == Ok::<i8, ()>(self) && post == pre
    }

    fn reroot(self, key: &RerooterKey, slab: &mut BSlab) -> (r: Result<i8, ()>) {
        Ok(self)
    }
}

impl Reroot for i16 {
    type Retval = i16;

    open spec fn reroot_req(self, key: RerooterKey, slab: BSlab) -> bool {
        slab.wf()
    }

    open spec fn reroot_ens(
        self,
        key: RerooterKey,
        pre: BSlab,
        post: BSlab,
        r: Result<i16, ()>,
    ) -> bool {
        r == Ok::<i16, ()>(self) && post == pre
    }

    fn reroot(self, key: &RerooterKey, slab: &mut BSlab) -> (r: Result<i16, ()>) {
        Ok(self)
    }
}

impl Reroot for i32 {
    type Retval = i32;

    open spec fn reroot_req(self, key: RerooterKey, slab: BSlab) -> bool {
        slab.wf()
    }

    open spec fn reroot_ens(
        self,
        key: RerooterKey,
        pre: BSlab,
        post: BSlab,
        r: Result<i32, ()>,
    ) -> bool {
        r == Ok::<i32, ()>(self) && post == pre
    }

    fn reroot(self, key: &RerooterKey, slab: &mut BSlab) -> (r: Result<i32, ()>) {
        Ok(self)
    }
}

impl Reroot for i64 {
    type Retval = i64;

    open spec fn reroot_req(self, key: RerooterKey, slab: BSlab) -> bool {
        slab.wf()
    }

    open spec fn reroot_ens(
        self,
        key: RerooterKey,
        pre: BSlab,
        post: BSlab,
        r: Result<i64, ()>,
    ) -> bool {
        r == Ok::<i64, ()>(self) && post == pre
    }

    fn reroot(self, key: &RerooterKey, slab: &mut BSlab) -> (r: Result<i64, ()>) {
        Ok(self)
    }
}

impl Reroot for char {
    type Retval = char;

    open spec fn reroot_req(self, key: RerooterKey, slab: BSlab) -> bool {
        slab.wf()
    }

    open spec fn reroot_ens(
        self,
        key: RerooterKey,
        pre: BSlab,
        post: BSlab,
        r: Result<char, ()>,
    ) -> bool {
        r == Ok::<char, ()>(self) && post == pre
    }

    fn reroot(self, key: &RerooterKey, slab: &mut BSlab) -> (r: Result<char, ()>) {
        Ok(self)
    }
}

} // verus!

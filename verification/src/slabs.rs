//! The read buffers of the event handler: a pool of fixed-size slabs, and
//! for each connection a chain of slabs holding the data read from it and
//! not yet consumed. Each slab ends with the big-endian number of the next
//! slab of its chain, or `NO_SLAB`.
use crate::ser::{be_bytes, be_read, be_value, lemma_be_roundtrip, lemma_pow256_values, push_be};
use vstd::prelude::*;

verus! {

/// The slab number that ends a chain, or stands for no slab.
pub const NO_SLAB: usize = 4294967295;

/// A pool of slabs of `slab_size` bytes, held one after the other in `buf`.
pub struct ReadSlabs {
    slab_size: usize,
    buf: Vec<u8>,
    in_use: Vec<bool>,
}

/// The chain of slabs of one connection: the first and last slab, how much
/// of the last slab is filled, and the slabs of the chain in order.
pub struct ReadChain {
    pub first_slab: usize,
    pub last_slab: usize,
    pub slab_offset: usize,
    pub ids: Ghost<Seq<usize>>,
}

impl ReadChain {
    /// A chain without slabs.
    pub fn new() -> (r: ReadChain)
        ensures
            r.ids@ == Seq::<usize>::empty(),
            r.first_slab == NO_SLAB,
            r.last_slab == NO_SLAB,
            r.slab_offset == 0,
    {
        ReadChain { first_slab: NO_SLAB, last_slab: NO_SLAB, slab_offset: 0, ids: Ghost(Seq::empty()) }
    }
}

proof fn lemma_slab_range(id: int, j: int, size: int, count: int)
    requires
        0 <= id < count,
        0 <= j < count,
        size > 0,
    ensures
        id * size + size <= count * size,
        0 <= id * size,
        id != j ==> (id * size + size <= j * size || j * size + size <= id * size),
{
    assert(id * size + size <= count * size) by (nonlinear_arith)
        requires
            0 <= id < count,
            size > 0,
    ;
    assert(0 <= id * size) by (nonlinear_arith)
        requires
            0 <= id,
            size > 0,
    ;
    if id < j {
        assert(id * size + size <= j * size) by (nonlinear_arith)
            requires
                id < j,
                size > 0,
        ;
    } else if j < id {
        assert(j * size + size <= id * size) by (nonlinear_arith)
            requires
                j < id,
                size > 0,
        ;
    }
}

impl ReadSlabs {
    /// The pool is laid out consistently.
    pub closed spec fn wf(&self) -> bool {
        &&& self.slab_size >= 5
        &&& self.in_use@.len() < NO_SLAB
        &&& self.buf@.len() == self.in_use@.len() * self.slab_size
    }

    /// The size of each slab.
    pub closed spec fn size(&self) -> nat {
        self.slab_size as nat
    }

    /// The number of slabs.
    pub closed spec fn count(&self) -> nat {
        self.in_use@.len()
    }

    /// Whether slab `id` is allocated.
    pub closed spec fn used(&self, id: int) -> bool {
        self.in_use@[id]
    }

    /// The bytes of slab `id`.
    pub closed spec fn slab(&self, id: int) -> Seq<u8> {
        self.buf@.subrange(id * self.slab_size, id * self.slab_size + self.slab_size)
    }

    /// The number stored at the end of slab `id`: the next slab of its chain.
    pub open spec fn next_of(&self, id: int) -> nat {
        be_value(self.slab(id).subrange(self.size() - 4, self.size() as int))
    }

    /// The bytes of a slab that hold data.
    pub open spec fn room(&self) -> nat {
        (self.size() - 4) as nat
    }

    /// `c` is a well-formed chain of allocated slabs of this pool.
    pub open spec fn chain_ok(&self, c: &ReadChain) -> bool {
        let ids = c.ids@;
        &&& forall|k: int| 0 <= k < ids.len() ==> #[trigger] ids[k] < self.count() && self.used(ids[k] as int)
        &&& forall|a: int, b: int| 0 <= a < b < ids.len() ==> #[trigger] ids[a] != #[trigger] ids[b]
        &&& forall|k: int| 0 <= k < ids.len() - 1 ==> self.next_of(#[trigger] ids[k] as int) == ids[k + 1]
        &&& ids.len() > 0 ==> {
            &&& self.next_of(ids.last() as int) == NO_SLAB
            &&& c.first_slab == ids[0]
            &&& c.last_slab == ids.last()
            &&& c.slab_offset <= self.room()
        }
        &&& ids.len() == 0 ==> c.first_slab == NO_SLAB && c.last_slab == NO_SLAB
    }

    /// How many bytes of the `k`-th slab of chain `c` hold data.
    pub open spec fn chunk_len(&self, c: &ReadChain, k: int) -> nat {
        if k == c.ids@.len() - 1 {
            c.slab_offset as nat
        } else {
            self.room()
        }
    }

    /// The data held by the `k`-th slab of chain `c`.
    pub open spec fn chunk(&self, c: &ReadChain, k: int) -> Seq<u8> {
        self.slab(c.ids@[k] as int).subrange(0, self.chunk_len(c, k) as int)
    }

    /// The data held by the first `n` slabs of chain `c`, in order.
    pub open spec fn content_upto(&self, c: &ReadChain, n: nat) -> Seq<u8>
        decreases n,
    {
        if n == 0 {
            Seq::empty()
        } else {
            self.content_upto(c, (n - 1) as nat) + self.chunk(c, n - 1)
        }
    }

    /// The data held by chain `c`.
    pub open spec fn content(&self, c: &ReadChain) -> Seq<u8> {
        self.content_upto(c, c.ids@.len())
    }

    /// Slabs that are allocated and not in chain `c` keep their bytes and
    /// stay allocated from `self` to `other`.
    pub open spec fn others_kept(&self, other: &ReadSlabs, c: Seq<usize>) -> bool {
        &&& other.size() == self.size()
        &&& other.count() == self.count()
        &&& forall|id: int|
            0 <= id < self.count() && self.used(id) && !c.contains(id as usize) ==> other.used(id)
                && #[trigger] other.slab(id) == self.slab(id)
    }

    /// A pool of `count` free slabs of `slab_size` bytes.
    pub fn new(slab_size: usize, count: usize) -> (r: ReadSlabs)
        requires
            slab_size >= 5,
            count < NO_SLAB,
            slab_size * count <= usize::MAX,
        ensures
            r.wf(),
            r.size() == slab_size,
            r.count() == count,
            forall|id: int| 0 <= id < count ==> !r.used(id),
    {
        let total = slab_size * count;
        let mut buf: Vec<u8> = Vec::new();
        let mut i: usize = 0;
        while i < total
            invariant
                i <= total,
                buf@.len() == i,
            decreases total - i,
        {
            buf.push(0);
            i = i + 1;
        }
        let mut in_use: Vec<bool> = Vec::new();
        let mut j: usize = 0;
        while j < count
            invariant
                j <= count,
                in_use@.len() == j,
                forall|k: int| 0 <= k < j ==> !in_use@[k],
            decreases count - j,
        {
            in_use.push(false);
            j = j + 1;
        }
        assert(buf@.len() == in_use@.len() * slab_size) by (nonlinear_arith)
            requires
                buf@.len() == slab_size * count,
                in_use@.len() == count,
        ;
        ReadSlabs { slab_size, buf, in_use }
    }
}

impl ReadSlabs {
    proof fn lemma_update_frame(&self, buf2: Seq<u8>, id: int, lo: int, hi: int)
        requires
            0 <= id < self.count(),
            self.slab_size >= 5,
            self.buf@.len() == self.in_use@.len() * self.slab_size,
            buf2.len() == self.buf@.len(),
            id * self.slab_size <= lo <= hi <= id * self.slab_size + self.slab_size,
            forall|p: int| 0 <= p < buf2.len() && !(lo <= p < hi) ==> buf2[p] == self.buf@[p],
        ensures
            forall|j: int|
                0 <= j < self.count() && j != id ==> #[trigger] buf2.subrange(
                    j * self.slab_size,
                    j * self.slab_size + self.slab_size,
                ) == self.slab(j),
    {
        assert forall|j: int| 0 <= j < self.count() && j != id implies #[trigger] buf2.subrange(
            j * self.slab_size,
            j * self.slab_size + self.slab_size,
        ) == self.slab(j) by {
            lemma_slab_range(id, j, self.slab_size as int, self.count() as int);
            lemma_slab_range(j, id, self.slab_size as int, self.count() as int);
            assert(buf2.subrange(j * self.slab_size, j * self.slab_size + self.slab_size) =~= self.slab(j));
        }
    }

    fn read_next(&self, id: usize) -> (r: usize)
        requires
            self.wf(),
            id < self.count(),
        ensures
            r == self.next_of(id as int),
    {
        proof {
            lemma_slab_range(id as int, id as int, self.slab_size as int, self.count() as int);
        }
        let blen = self.buf.len();
        assert(id * self.slab_size + self.slab_size <= blen);
        let start = id * self.slab_size + self.slab_size - 4;
        let v = be_read(self.buf.as_slice(), start, 4);
        proof {
            let sl = self.slab(id as int);
            assert(sl.subrange(self.size() - 4, self.size() as int) =~= self.buf@.subrange(
                start as int,
                start + 4,
            ));
            crate::ser::lemma_be_value_bound(self.buf@.subrange(start as int, start + 4));
            lemma_pow256_values();
        }
        v as usize
    }

    fn write_next(&mut self, id: usize, next: usize)
        requires
            old(self).wf(),
            id < old(self).count(),
            next <= NO_SLAB,
        ensures
            final(self).wf(),
            final(self).size() == old(self).size(),
            final(self).count() == old(self).count(),
            forall|j: int| 0 <= j < old(self).count() ==> final(self).used(j) == old(self).used(j),
            forall|j: int| 0 <= j < old(self).count() && j != id ==> #[trigger] final(self).slab(j) == old(
                self,
            ).slab(j),
            final(self).slab(id as int).subrange(0, old(self).room() as int) == old(self).slab(
                id as int,
            ).subrange(0, old(self).room() as int),
            final(self).next_of(id as int) == next,
    {
        proof {
            lemma_slab_range(id as int, id as int, self.slab_size as int, self.count() as int);
            lemma_pow256_values();
            lemma_be_roundtrip(next as nat, 4);
        }
        let mut enc: Vec<u8> = Vec::new();
        push_be(&mut enc, next as u128, 4);
        assert(enc@ =~= be_bytes(next as nat, 4));
        let blen = self.buf.len();
        assert(id * self.slab_size + self.slab_size <= blen);
        let start = id * self.slab_size + self.slab_size - 4;
        let ghost old_buf = self.buf@;
        let mut k: usize = 0;
        while k < 4
            invariant
                k <= 4,
                enc@.len() == 4,
                start + 4 <= self.buf@.len(),
                self.buf@.len() == old_buf.len(),
                old_buf.len() == blen,
                forall|p: int| 0 <= p < old_buf.len() && !(start <= p < start + k) ==> self.buf@[p] == old_buf[p],
                forall|p: int| start <= p < start + k ==> self.buf@[p] == enc@[p - start],
                self.slab_size == old(self).slab_size,
                self.in_use@ == old(self).in_use@,
            decreases 4 - k,
        {
            self.buf.set(start + k, enc[k]);
            k = k + 1;
        }
        proof {
            old(self).lemma_update_frame(self.buf@, id as int, start as int, start + 4);
            let sl = self.slab(id as int);
            assert(sl.subrange(self.size() - 4, self.size() as int) =~= enc@);
            assert(sl.subrange(0, self.room() as int) =~= old(self).slab(id as int).subrange(
                0,
                self.room() as int,
            ));
            assert forall|j: int| 0 <= j < old(self).count() && j != id implies #[trigger] self.slab(j)
                == old(self).slab(j) by {
                assert(self.slab(j) == self.buf@.subrange(
                    j * self.slab_size,
                    j * self.slab_size + self.slab_size,
                ));
            }
        }
    }
}

impl ReadSlabs {
    fn write_data(&mut self, id: usize, offset: usize, bytes: &[u8])
        requires
            old(self).wf(),
            id < old(self).count(),
            offset + bytes@.len() <= old(self).room(),
        ensures
            final(self).wf(),
            final(self).size() == old(self).size(),
            final(self).count() == old(self).count(),
            forall|j: int| 0 <= j < old(self).count() ==> final(self).used(j) == old(self).used(j),
            forall|j: int| 0 <= j < old(self).count() && j != id ==> #[trigger] final(self).slab(j) == old(
                self,
            ).slab(j),
            final(self).slab(id as int) == old(self).slab(id as int).subrange(0, offset as int)
                + bytes@ + old(self).slab(id as int).subrange(
                offset + bytes@.len(),
                old(self).size() as int,
            ),
    {
        proof {
            lemma_slab_range(id as int, id as int, self.slab_size as int, self.count() as int);
        }
        let blen = self.buf.len();
        assert(id * self.slab_size + self.slab_size <= blen);
        let start = id * self.slab_size + offset;
        let n = bytes.len();
        let ghost old_buf = self.buf@;
        let mut k: usize = 0;
        while k < n
            invariant
                k <= n,
                n == bytes@.len(),
                start + n <= self.buf@.len(),
                self.buf@.len() == old_buf.len(),
                old_buf.len() == blen,
                forall|p: int| 0 <= p < old_buf.len() && !(start <= p < start + k) ==> self.buf@[p] == old_buf[p],
                forall|p: int| start <= p < start + k ==> self.buf@[p] == bytes@[p - start],
                self.slab_size == old(self).slab_size,
                self.in_use@ == old(self).in_use@,
            decreases n - k,
        {
            self.buf.set(start + k, bytes[k]);
            k = k + 1;
        }
        proof {
            old(self).lemma_update_frame(self.buf@, id as int, start as int, start + n);
            assert(self.slab(id as int) =~= old(self).slab(id as int).subrange(0, offset as int) + bytes@
                + old(self).slab(id as int).subrange(offset + bytes@.len(), old(self).size() as int));
            assert forall|j: int| 0 <= j < old(self).count() && j != id implies #[trigger] self.slab(j)
                == old(self).slab(j) by {
                assert(self.slab(j) == self.buf@.subrange(
                    j * self.slab_size,
                    j * self.slab_size + self.slab_size,
                ));
            }
        }
    }

    fn allocate(&mut self) -> (r: Option<usize>)
        requires
            old(self).wf(),
        ensures
            final(self).wf(),
            final(self).size() == old(self).size(),
            final(self).count() == old(self).count(),
            forall|j: int| 0 <= j < old(self).count() ==> #[trigger] final(self).slab(j) == old(self).slab(j),
            match r {
                Some(id) => id < old(self).count() && !old(self).used(id as int) && final(self).used(id as int)
                    && forall|j: int| 0 <= j < old(self).count() && j != id ==> final(self).used(j) == old(
                    self,
                ).used(j),
                None => forall|j: int|
                    0 <= j < old(self).count() ==> old(self).used(j) && final(self).used(j),
            },
    {
        let n = self.in_use.len();
        let mut i: usize = 0;
        while i < n
            invariant
                n == self.in_use@.len(),
                i <= n,
                forall|k: int| 0 <= k < i ==> self.in_use@[k],
                self.buf@ == old(self).buf@,
                self.slab_size == old(self).slab_size,
                self.in_use@ == old(self).in_use@,
                old(self).wf(),
            decreases n - i,
        {
            if !self.in_use[i] {
                self.in_use.set(i, true);
                assert(!old(self).used(i as int));
                assert(self.used(i as int));
                assert forall|j: int| 0 <= j < old(self).count() && j != i implies self.used(j) == old(
                    self,
                ).used(j) by {
                    assert(self.in_use@[j] == old(self).in_use@[j]);
                }
                return Some(i);
            }
            i = i + 1;
        }
        None
    }

    fn release(&mut self, id: usize)
        requires
            old(self).wf(),
            id < old(self).count(),
        ensures
            final(self).wf(),
            final(self).size() == old(self).size(),
            final(self).count() == old(self).count(),
            forall|j: int| 0 <= j < old(self).count() ==> #[trigger] final(self).slab(j) == old(self).slab(j),
            !final(self).used(id as int),
            forall|j: int| 0 <= j < old(self).count() && j != id ==> final(self).used(j) == old(self).used(j),
    {
        self.in_use.set(id, false);
    }
}

/// Content is made of the chunks: pools and chains whose first `n` chunks
/// agree hold the same first `n` chunks of data.
proof fn lemma_content_same(s1: &ReadSlabs, c1: &ReadChain, s2: &ReadSlabs, c2: &ReadChain, n: nat)
    requires
        forall|k: int| 0 <= k < n ==> #[trigger] s1.chunk(c1, k) == s2.chunk(c2, k),
    ensures
        s1.content_upto(c1, n) == s2.content_upto(c2, n),
    decreases n,
{
    if n > 0 {
        lemma_content_same(s1, c1, s2, c2, (n - 1) as nat);
    }
}

/// Dropping the first `m` slabs of a chain drops its first `m` chunks of
/// data.
proof fn lemma_content_skip(s1: &ReadSlabs, c1: &ReadChain, s2: &ReadSlabs, c2: &ReadChain, m: nat, j: nat)
    requires
        m + j <= c1.ids@.len(),
        j <= c2.ids@.len(),
        forall|k: int| 0 <= k < j ==> #[trigger] s2.chunk(c2, k) == s1.chunk(c1, k + m),
    ensures
        s1.content_upto(c1, m + j) == s1.content_upto(c1, m) + s2.content_upto(c2, j),
    decreases j,
{
    if j == 0 {
        assert(s1.content_upto(c1, m) + s2.content_upto(c2, 0) =~= s1.content_upto(c1, m));
    } else {
        lemma_content_skip(s1, c1, s2, c2, m, (j - 1) as nat);
        assert(s2.chunk(c2, j - 1) == s1.chunk(c1, j - 1 + m));
        assert(s1.content_upto(c1, m + j) =~= s1.content_upto(c1, m) + s2.content_upto(c2, j));
    }
}

/// A slab made ready for reading into: the slab, the room left in it, the
/// last slab of the chain before, and whether the slab was just added.
#[derive(Clone, Copy, Debug, PartialEq, Eq, Structural)]
pub struct PreparedRead {
    pub slab_id: usize,
    pub space: usize,
    pub prev_last: usize,
    pub fresh: bool,
}

impl ReadSlabs {
    /// `q` describes the last slab of chain `c` as made ready for a read:
    /// the slab, the room left in it and, when it was just added, the slab
    /// that ended the chain before it.
    pub open spec fn prepared_for(&self, c: &ReadChain, q: PreparedRead) -> bool {
        &&& c.ids@.len() > 0
        &&& q.slab_id == c.last_slab
        &&& q.space == self.room() - c.slab_offset
        &&& q.fresh ==> q.prev_last == if c.ids@.len() >= 2 {
            c.ids@[c.ids@.len() - 2]
        } else {
            NO_SLAB
        }
    }
}

impl ReadSlabs {
    /// Makes room at the end of chain `c` for reading: a chain without
    /// slabs, or whose last slab is full, gets a new slab; `None` when no
    /// slab is free, in which case the connection is to be closed. The data
    /// held by the chain does not change.
    pub fn prepare(&mut self, c: &mut ReadChain) -> (r: Option<PreparedRead>)
        requires
            old(self).wf(),
            old(self).chain_ok(&*old(c)),
        ensures
            final(self).wf(),
            final(self).chain_ok(&*final(c)),
            final(self).content(&*final(c)) == old(self).content(&*old(c)),
            old(self).others_kept(&*final(self), old(c).ids@),
            match r {
                None => (old(c).ids@.len() == 0 || old(c).slab_offset == old(self).room()) && forall|j: int|
                    0 <= j < old(self).count() ==> old(self).used(j),
                Some(p) => {
                    &&& final(c).ids@.len() > 0
                    &&& p.slab_id == final(c).last_slab
                    &&& p.space == final(self).room() - final(c).slab_offset
                    &&& p.prev_last == old(c).last_slab
                    &&& p.fresh == (old(c).ids@.len() == 0 || old(c).slab_offset == old(self).room())
                    &&& p.fresh ==> final(c).ids@ == old(c).ids@.push(p.slab_id) && final(c).slab_offset == 0
                    &&& !p.fresh ==> final(c).ids@ == old(c).ids@ && final(c).slab_offset == old(c).slab_offset
                    &&& final(self).prepared_for(&*final(c), p)
                },
            },
    {
        let room = self.slab_size - 4;
        let ghost old_s = *self;
        let ghost old_c = *c;
        if c.last_slab >= NO_SLAB {
            let id = match self.allocate() {
                Some(id) => id,
                None => {
                    proof {
                        assert forall|k: int| 0 <= k < old_c.ids@.len() implies #[trigger] self.chunk(&*c, k)
                            == old_s.chunk(&old_c, k) by {
                            assert(self.slab(old_c.ids@[k] as int) == old_s.slab(old_c.ids@[k] as int));
                        }
                        lemma_content_same(&*self, &*c, &old_s, &old_c, old_c.ids@.len());
                        assert(old(self).others_kept(&*self, old(c).ids@));
                    }
                    return None;
                },
            };
            self.write_next(id, NO_SLAB);
            c.first_slab = id;
            c.last_slab = id;
            c.slab_offset = 0;
            c.ids = Ghost(Seq::<usize>::empty().push(id));
            proof {
                assert(self.content(&*c) =~= Seq::<u8>::empty()) by {
                    assert(self.content_upto(&*c, 0) == Seq::<u8>::empty());
                    assert(self.chunk(&*c, 0) =~= Seq::<u8>::empty());
                }
                assert(old_c.ids@.len() == 0);
                assert(old_c.ids@ =~= Seq::<usize>::empty());
                assert(c.ids@ =~= old_c.ids@.push(id));
                assert(old_s.content(&old_c) == Seq::<u8>::empty());
                assert(old(self).others_kept(&*self, old(c).ids@)) by {
                    assert forall|j: int| 0 <= j < old_s.count() && old_s.used(j) && !old_c.ids@.contains(j as usize) implies self.used(j)
                        && #[trigger] self.slab(j) == old_s.slab(j) by {
                        assert(j != id);
                    }
                }
            }
            assert(c.ids@.len() == 1);
            Some(PreparedRead { slab_id: id, space: room, prev_last: NO_SLAB, fresh: true })
        } else if c.slab_offset == room {
            let prev = c.last_slab;
            let id = match self.allocate() {
                Some(id) => id,
                None => {
                    proof {
                        assert forall|k: int| 0 <= k < old_c.ids@.len() implies #[trigger] self.chunk(&*c, k)
                            == old_s.chunk(&old_c, k) by {
                            assert(self.slab(old_c.ids@[k] as int) == old_s.slab(old_c.ids@[k] as int));
                        }
                        lemma_content_same(&*self, &*c, &old_s, &old_c, old_c.ids@.len());
                        assert(old(self).others_kept(&*self, old(c).ids@));
                    }
                    return None;
                },
            };
            proof {
                assert(old_c.ids@.len() > 0);
                assert(old_c.ids@.last() == prev);
                assert(old_s.used(prev as int));
                assert(id != prev);
            }
            self.write_next(prev, id);
            self.write_next(id, NO_SLAB);
            c.last_slab = id;
            c.slab_offset = 0;
            c.ids = Ghost(old_c.ids@.push(id));
            proof {
                let n = old_c.ids@.len();
                let ids = c.ids@;
                assert forall|k: int| 0 <= k < ids.len() implies #[trigger] ids[k] < self.count() && self.used(
                    ids[k] as int,
                ) by {
                    if k < n {
                        assert(ids[k] == old_c.ids@[k]);
                        assert(old_s.used(old_c.ids@[k] as int));
                        assert(old_c.ids@[k] != id);
                    }
                }
                assert forall|a: int, b: int| 0 <= a < b < ids.len() implies #[trigger] ids[a] != #[trigger] ids[b] by {
                    if b < n {
                        assert(ids[a] == old_c.ids@[a] && ids[b] == old_c.ids@[b]);
                    } else {
                        assert(ids[a] == old_c.ids@[a]);
                        assert(old_s.used(old_c.ids@[a] as int));
                    }
                }
                assert forall|k: int| 0 <= k < ids.len() - 1 implies self.next_of(#[trigger] ids[k] as int) == ids[k + 1] by {
                    if k < n - 1 {
                        assert(ids[k] == old_c.ids@[k]);
                        assert(old_c.ids@[k] != prev) by {
                            assert(old_c.ids@[n - 1] == prev);
                        }
                        assert(old_c.ids@[k] != id) by {
                            assert(old_s.used(old_c.ids@[k] as int));
                        }
                        assert(self.slab(old_c.ids@[k] as int) == old_s.slab(old_c.ids@[k] as int));
                    } else {
                        assert(ids[k] == prev);
                    }
                }
                assert forall|k: int| 0 <= k < n + 1 implies #[trigger] self.chunk(&*c, k) == old_s.chunk(
                    &old_c,
                    k,
                ) || k == n by {
                    if k < n {
                        assert(ids[k] == old_c.ids@[k]);
                        if old_c.ids@[k] != prev {
                            assert(old_c.ids@[k] != id) by {
                                assert(old_s.used(old_c.ids@[k] as int));
                            }
                            assert(self.slab(old_c.ids@[k] as int) == old_s.slab(old_c.ids@[k] as int));
                        } else {
                            assert(self.slab(prev as int).subrange(0, room as int) == old_s.slab(
                                prev as int,
                            ).subrange(0, room as int));
                            assert(self.chunk(&*c, k) =~= old_s.chunk(&old_c, k));
                        }
                    }
                }
                lemma_content_same(&*self, &*c, &old_s, &old_c, n);
                assert(self.chunk(&*c, n as int) =~= Seq::<u8>::empty());
                assert(self.content(&*c) =~= old_s.content(&old_c));
                assert(old(self).others_kept(&*self, old(c).ids@)) by {
                    assert forall|j: int| 0 <= j < old_s.count() && old_s.used(j) && !old_c.ids@.contains(j as usize) implies self.used(j)
                        && #[trigger] self.slab(j) == old_s.slab(j) by {
                        assert(j != id);
                        assert(old_c.ids@[n - 1] == prev);
                        assert(j != prev);
                    }
                }
            }
            assert(c.ids@[c.ids@.len() - 2] == prev) by {
                assert(c.ids@[old_c.ids@.len() - 1] == old_c.ids@[old_c.ids@.len() - 1]);
            }
            assert(c.ids@.last() == id);
            Some(PreparedRead { slab_id: id, space: room, prev_last: prev, fresh: true })
        } else {
            proof {
                assert(old_c.ids@.len() > 0);
                assert(old_c.ids@.last() == c.last_slab);
            }
            Some(
                PreparedRead {
                    slab_id: c.last_slab,
                    space: room - c.slab_offset,
                    prev_last: c.last_slab,
                    fresh: false,
                },
            )
        }
    }
}

impl ReadSlabs {
    /// Stores `bytes`, just read from the connection, after the data of the
    /// last slab of chain `c`: the chain then holds its data followed by
    /// `bytes`.
    pub fn commit(&mut self, c: &mut ReadChain, bytes: &[u8])
        requires
            old(self).wf(),
            old(self).chain_ok(&*old(c)),
            old(c).ids@.len() > 0,
            old(c).slab_offset + bytes@.len() <= old(self).room(),
        ensures
            final(self).wf(),
            final(self).chain_ok(&*final(c)),
            final(self).content(&*final(c)) == old(self).content(&*old(c)) + bytes@,
            old(self).others_kept(&*final(self), old(c).ids@),
            final(c).ids@ == old(c).ids@,
            final(c).slab_offset == old(c).slab_offset + bytes@.len(),
    {
        let ghost old_s = *self;
        let ghost old_c = *c;
        let id = c.last_slab;
        let off = c.slab_offset;
        proof {
            assert(old_c.ids@.last() == id);
            assert(old_c.ids@[old_c.ids@.len() - 1] == id);
        }
        self.write_data(id, off, bytes);
        c.slab_offset = off + bytes.len();
        proof {
            let n = old_c.ids@.len();
            let ids = c.ids@;
            lemma_slab_range(id as int, id as int, old_s.slab_size as int, old_s.count() as int);
            assert(old_s.slab(id as int).len() == old_s.size());
            assert(self.slab(id as int).subrange(self.size() - 4, self.size() as int) =~= old_s.slab(
                id as int,
            ).subrange(self.size() - 4, self.size() as int));
            assert forall|k: int| 0 <= k < ids.len() - 1 implies self.next_of(#[trigger] ids[k] as int) == ids[k + 1] by {
                assert(ids[k] != id) by {
                    assert(ids[n - 1] == id);
                }
            }
            assert forall|k: int| 0 <= k < n - 1 implies #[trigger] self.chunk(&*c, k) == old_s.chunk(&old_c, k) by {
                assert(ids[k] != id) by {
                    assert(ids[n - 1] == id);
                }
                assert(self.slab(ids[k] as int) == old_s.slab(ids[k] as int));
            }
            lemma_content_same(&*self, &*c, &old_s, &old_c, (n - 1) as nat);
            assert(self.chunk(&*c, n - 1) =~= old_s.chunk(&old_c, n - 1) + bytes@);
            assert(self.content(&*c) =~= old_s.content(&old_c) + bytes@);
            assert(old(self).others_kept(&*self, old(c).ids@)) by {
                assert forall|j: int| 0 <= j < old_s.count() && old_s.used(j) && !old_c.ids@.contains(j as usize) implies self.used(j)
                    && #[trigger] self.slab(j) == old_s.slab(j) by {
                    assert(j != id) by {
                        assert(old_c.ids@[n - 1] == id);
                    }
                }
            }
        }
    }

    /// After a read found nothing to read: a slab that was just added to
    /// chain `c` for it and holds nothing is freed, and the chain ends where
    /// it ended before, its last slab as full as it was. Otherwise nothing
    /// changes. Either way the chain holds the same data.
    pub fn finish_idle_read(&mut self, c: &mut ReadChain, p: PreparedRead)
        requires
            old(self).wf(),
            old(self).chain_ok(&*old(c)),
            p.fresh ==> old(c).ids@.len() > 0 && p.slab_id == old(c).last_slab && p.prev_last == if old(
                c,
            ).ids@.len() >= 2 {
                old(c).ids@[old(c).ids@.len() - 2]
            } else {
                NO_SLAB
            },
        ensures
            final(self).wf(),
            final(self).chain_ok(&*final(c)),
            old(self).others_kept(&*final(self), old(c).ids@),
            final(self).content(&*final(c)) == old(self).content(&*old(c)),
            p.fresh && old(c).slab_offset == 0 ==> {
                &&& final(c).ids@ == old(c).ids@.drop_last()
                &&& !final(self).used(p.slab_id as int)
                &&& final(c).slab_offset == if old(c).ids@.len() >= 2 {
                    old(self).room()
                } else {
                    0
                }
            },
            !(p.fresh && old(c).slab_offset == 0) ==> *final(c) == *old(c),
    {
        let ghost old_s = *self;
        let ghost old_c = *c;
        if !(p.fresh && c.slab_offset == 0) {
            proof {
                assert forall|k: int| 0 <= k < old_c.ids@.len() implies #[trigger] self.chunk(&*c, k)
                    == old_s.chunk(&old_c, k) by {}
                lemma_content_same(&*self, &*c, &old_s, &old_c, old_c.ids@.len());
            }
            return;
        }
        let n_ids = Ghost(old_c.ids@.len());
        self.release(p.slab_id);
        c.last_slab = p.prev_last;
        if p.prev_last < NO_SLAB {
            proof {
                assert(old_c.ids@.len() >= 2);
                assert(old_c.ids@[n_ids@ - 2] == p.prev_last);
                assert(old_s.used(p.prev_last as int));
            }
            self.write_next(p.prev_last, NO_SLAB);
            c.slab_offset = self.slab_size - 4;
        } else {
            c.first_slab = p.prev_last;
        }
        c.ids = Ghost(old_c.ids@.drop_last());
        proof {
            let n = old_c.ids@.len();
            let ids = c.ids@;
            let last = p.slab_id;
            assert(old_c.ids@[n - 1] == last);
            assert forall|k: int| 0 <= k < ids.len() implies #[trigger] ids[k] < self.count() && self.used(
                ids[k] as int,
            ) by {
                assert(ids[k] == old_c.ids@[k]);
                assert(old_c.ids@[k] != last);
            }
            assert forall|a: int, b: int| 0 <= a < b < ids.len() implies #[trigger] ids[a] != #[trigger] ids[b] by {
                assert(ids[a] == old_c.ids@[a] && ids[b] == old_c.ids@[b]);
            }
            assert forall|k: int| 0 <= k < ids.len() - 1 implies self.next_of(#[trigger] ids[k] as int) == ids[k + 1] by {
                assert(ids[k] == old_c.ids@[k]);
                assert(ids[k + 1] == old_c.ids@[k + 1]);
                assert(old_c.ids@[k] != p.prev_last) by {
                    assert(old_c.ids@[n - 2] == p.prev_last);
                }
                assert(self.slab(ids[k] as int) == old_s.slab(ids[k] as int));
            }
            if n >= 2 {
                assert(ids.last() == p.prev_last);
                assert(ids[0] == old_c.ids@[0]);
                assert forall|k: int| 0 <= k < n - 2 implies #[trigger] self.chunk(&*c, k) == old_s.chunk(
                    &old_c,
                    k,
                ) by {
                    assert(ids[k] == old_c.ids@[k]);
                    assert(old_c.ids@[k] != p.prev_last) by {
                        assert(old_c.ids@[n - 2] == p.prev_last);
                    }
                    assert(self.slab(ids[k] as int) == old_s.slab(ids[k] as int));
                }
                assert(self.chunk(&*c, n - 2) == old_s.chunk(&old_c, n - 2)) by {
                    assert(ids[n - 2] == old_c.ids@[n - 2]);
                    assert(old_c.ids@[n - 2] != last);
                }
                lemma_content_same(&*self, &*c, &old_s, &old_c, (n - 1) as nat);
                assert(old_s.chunk(&old_c, n - 1) =~= Seq::<u8>::empty());
                assert(self.content(&*c) == self.content_upto(&*c, (n - 1) as nat));
                assert(old_s.content(&old_c) == old_s.content_upto(&old_c, (n - 1) as nat) + old_s.chunk(
                    &old_c,
                    n - 1,
                ));
                assert(self.content(&*c) =~= old_s.content(&old_c));
            } else {
                assert(ids.len() == 0);
                assert(n == 1);
                assert(old_s.chunk(&old_c, 0) =~= Seq::<u8>::empty());
                assert(self.content(&*c) == Seq::<u8>::empty());
                assert(old_s.content(&old_c) == old_s.content_upto(&old_c, 0) + old_s.chunk(&old_c, 0));
                assert(self.content(&*c) =~= old_s.content(&old_c));
            }
            assert(!self.used(last as int));
            assert(old(self).others_kept(&*self, old(c).ids@)) by {
                assert forall|j: int| 0 <= j < old_s.count() && old_s.used(j) && !old_c.ids@.contains(j as usize) implies self.used(j)
                    && #[trigger] self.slab(j) == old_s.slab(j) by {
                    assert(j != last) by {
                        assert(old_c.ids@[n - 1] == last);
                    }
                    if n >= 2 {
                        assert(j != p.prev_last) by {
                            assert(old_c.ids@[n - 2] == p.prev_last);
                        }
                    }
                }
            }
        }
    }
}

/// What a read from a connection gave: bytes, the end of the stream (no
/// bytes), nothing ready yet, or a failure.
pub enum ReadEvent {
    Bytes(Vec<u8>),
    WouldBlock,
    Failed,
}

/// What follows a read: the read callback (and another read), the end of
/// reading for now, or closing the connection.
#[derive(Clone, Copy, Debug, PartialEq, Eq, Structural)]
pub enum ReadNext {
    CallOnRead,
    Done,
    Close,
}

/// How many reads brought data, and how many bytes they brought.
#[derive(Clone, Copy, Debug, PartialEq, Eq, Structural)]
pub struct ReadTally {
    pub count: usize,
    pub sum: u128,
}

impl ReadSlabs {
    /// Handles the outcome of one read into chain `c`, whose last slab was
    /// made ready as `p` (`None` when no slab was free). The connection is
    /// closed when no slab was free, when the read found the end of the
    /// stream (no bytes) and when it failed. Bytes read are appended to the
    /// chain and counted, and the read callback follows. A read that found
    /// nothing ready ends reading for now and gives back a slab just added
    /// for it.
    pub fn read_step(&mut self, c: &mut ReadChain, p: Option<PreparedRead>, ev: ReadEvent, tally: &mut ReadTally) -> (r:
        ReadNext)
        requires
            old(self).wf(),
            old(self).chain_ok(&*old(c)),
            p matches Some(q) ==> old(self).prepared_for(&*old(c), q),
            p matches Some(q) && ev matches ReadEvent::Bytes(b) ==> b@.len() <= q.space,
            old(tally).count < usize::MAX,
            ev matches ReadEvent::Bytes(b) ==> old(tally).sum + b@.len() <= u128::MAX,
        ensures
            final(self).wf(),
            final(self).chain_ok(&*final(c)),
            old(self).others_kept(&*final(self), old(c).ids@),
            r == match (p, ev) {
                (None, _) => ReadNext::Close,
                (Some(_), ReadEvent::Bytes(b)) => if b@.len() == 0 {
                    ReadNext::Close
                } else {
                    ReadNext::CallOnRead
                },
                (Some(_), ReadEvent::WouldBlock) => ReadNext::Done,
                (Some(_), ReadEvent::Failed) => ReadNext::Close,
            },
            match (p, ev) {
                (Some(_), ReadEvent::Bytes(b)) => final(self).content(&*final(c)) == old(self).content(
                    &*old(c),
                ) + b@,
                _ => final(self).content(&*final(c)) == old(self).content(&*old(c)),
            },
            *final(tally) == if r == ReadNext::CallOnRead {
                ReadTally {
                    count: (old(tally).count + 1) as usize,
                    sum: (old(tally).sum + match ev {
                        ReadEvent::Bytes(b) => b@.len(),
                        _ => 0,
                    }) as u128,
                }
            } else {
                *old(tally)
            },
    {
        let q = match p {
            Some(q) => q,
            None => return ReadNext::Close,
        };
        match ev {
            ReadEvent::Bytes(b) => {
                if b.len() == 0 {
                    return ReadNext::Close;
                }
                proof {
                    assert(old(c).ids@.last() == old(c).last_slab);
                }
                self.commit(c, b.as_slice());
                tally.count = tally.count + 1;
                tally.sum = tally.sum + b.len() as u128;
                ReadNext::CallOnRead
            },
            ReadEvent::WouldBlock => {
                proof {
                    assert(old(c).ids@.last() == old(c).last_slab);
                }
                self.finish_idle_read(c, q);
                ReadNext::Done
            },
            ReadEvent::Failed => ReadNext::Close,
        }
    }
}

/// Freeing the first slab of a chain leaves a chain of the slabs after it,
/// which holds the data after the first chunk.
proof fn lemma_drop_first(s1: &ReadSlabs, c1: &ReadChain, s2: &ReadSlabs, c2: &ReadChain)
    requires
        s1.wf(),
        s1.chain_ok(c1),
        c1.ids@.len() > 0,
        c2.ids@ == c1.ids@.drop_first(),
        s2.size() == s1.size(),
        s2.count() == s1.count(),
        forall|j: int| 0 <= j < s1.count() ==> #[trigger] s2.slab(j) == s1.slab(j),
        forall|j: int| 0 <= j < s1.count() && j != c1.ids@[0] ==> s2.used(j) == s1.used(j),
        c2.slab_offset == c1.slab_offset,
        c2.first_slab == s1.next_of(c1.ids@[0] as int),
        c2.first_slab >= NO_SLAB ==> c2.last_slab == c2.first_slab,
        c2.first_slab < NO_SLAB ==> c2.last_slab == c1.last_slab,
    ensures
        s2.chain_ok(c2),
        s1.content(c1) == s1.chunk(c1, 0) + s2.content(c2),
{
    let ids = c2.ids@;
    let old = c1.ids@;
    assert forall|k: int| 0 <= k < ids.len() implies #[trigger] ids[k] < s2.count() && s2.used(ids[k] as int) by {
        assert(ids[k] == old[k + 1]);
        assert(old[k + 1] != old[0]);
    }
    assert forall|a: int, b: int| 0 <= a < b < ids.len() implies #[trigger] ids[a] != #[trigger] ids[b] by {
        assert(ids[a] == old[a + 1] && ids[b] == old[b + 1]);
    }
    assert forall|k: int| 0 <= k < ids.len() - 1 implies s2.next_of(#[trigger] ids[k] as int) == ids[k + 1] by {
        assert(ids[k] == old[k + 1]);
        assert(ids[k + 1] == old[k + 2]);
        assert(s2.slab(old[k + 1] as int) == s1.slab(old[k + 1] as int));
    }
    if ids.len() > 0 {
        assert(s1.next_of(old[0] as int) == old[1]);
        assert(ids[0] == old[1]);
        assert(old[1] < s1.count());
        assert(c2.first_slab < NO_SLAB);
        assert(ids.last() == old.last());
        assert(s2.slab(old.last() as int) == s1.slab(old.last() as int));
    } else {
        assert(s1.next_of(old[0] as int) == NO_SLAB) by {
            assert(old.last() == old[0]);
        }
    }
    assert forall|k: int| 0 <= k < ids.len() implies #[trigger] s2.chunk(c2, k) == s1.chunk(c1, k + 1) by {
        assert(ids[k] == old[k + 1]);
        assert(s2.slab(old[k + 1] as int) == s1.slab(old[k + 1] as int));
    }
    lemma_content_skip(s1, c1, s2, c2, 1, ids.len());
    assert(s1.content_upto(c1, 0) == Seq::<u8>::empty());
    assert(s1.content_upto(c1, 1) =~= s1.chunk(c1, 0));
}

/// A chunk of the data held by a chain: the slab, its data, and the next
/// slab of the chain (`NO_SLAB` after the last).
pub struct Chunk {
    pub slab_id: usize,
    pub data: Vec<u8>,
    pub next: usize,
}

/// How many slabs clearing a chain through slab `slab_id` frees: those up
/// to and including it, or all of them when it is not in the chain.
pub open spec fn clear_count(ids: Seq<usize>, slab_id: usize) -> nat {
    if ids.contains(slab_id) {
        (ids.index_of(slab_id) + 1) as nat
    } else {
        ids.len()
    }
}

impl ReadSlabs {
    /// The chunk of chain `c` held by slab `cur`, and the slab after it;
    /// `None` for `NO_SLAB`, which ends a chain. Starting from the first
    /// slab and following `next` gives the chunks of the chain in order.
    pub fn next_chunk(&self, c: &ReadChain, cur: usize) -> (r: Option<Chunk>)
        requires
            self.wf(),
            self.chain_ok(c),
            cur == NO_SLAB || c.ids@.contains(cur),
        ensures
            cur == NO_SLAB ==> r is None,
            cur != NO_SLAB ==> {
                let k = c.ids@.index_of(cur);
                &&& r matches Some(ch)
                &&& ch.slab_id == cur
                &&& ch.data@ == self.chunk(c, k)
                &&& ch.next == if k + 1 < c.ids@.len() {
                    c.ids@[k + 1]
                } else {
                    NO_SLAB
                }
            },
    {
        if cur >= NO_SLAB {
            return None;
        }
        let ghost k = c.ids@.index_of(cur);
        proof {
            assert(c.ids@.contains(cur));
            assert(c.ids@[k] == cur);
            lemma_slab_range(cur as int, cur as int, self.slab_size as int, self.count() as int);
        }
        let room = self.slab_size - 4;
        let len = if cur == c.last_slab {
            c.slab_offset
        } else {
            room
        };
        proof {
            if cur == c.last_slab {
                assert(c.ids@[c.ids@.len() - 1] == cur);
                if k != c.ids@.len() - 1 {
                    assert(c.ids@[k] != c.ids@[c.ids@.len() - 1]);
                }
            }
            assert(len == self.chunk_len(c, k));
        }
        let blen = self.buf.len();
        assert(cur * self.slab_size + self.slab_size <= blen);
        let start = cur * self.slab_size;
        let mut data: Vec<u8> = Vec::new();
        let mut i: usize = 0;
        while i < len
            invariant
                i <= len <= room,
                room == self.slab_size - 4,
                start + self.slab_size <= blen,
                blen == self.buf@.len(),
                data@ == self.buf@.subrange(start as int, start + i),
            decreases len - i,
        {
            data.push(self.buf[start + i]);
            assert(data@ =~= self.buf@.subrange(start as int, start + i + 1));
            i = i + 1;
        }
        assert(data@ =~= self.chunk(c, k));
        let next = self.read_next(cur);
        proof {
            if k + 1 < c.ids@.len() {
                assert(self.next_of(c.ids@[k] as int) == c.ids@[k + 1]);
            } else {
                assert(c.ids@.last() == cur);
            }
        }
        Some(Chunk { slab_id: cur, data, next })
    }

    /// Frees the slabs of chain `c` from the first through slab `slab_id`
    /// (all of them when `slab_id` is not in the chain): the chain then
    /// holds what followed their data.
    #[verifier::rlimit(40)]
    pub fn clear_through(&mut self, c: &mut ReadChain, slab_id: usize)
        requires
            old(self).wf(),
            old(self).chain_ok(&*old(c)),
        ensures
            final(self).wf(),
            final(self).chain_ok(&*final(c)),
            final(c).ids@ == old(c).ids@.skip(clear_count(old(c).ids@, slab_id) as int),
            old(self).content(&*old(c)) == old(self).content_upto(
                &*old(c),
                clear_count(old(c).ids@, slab_id),
            ) + final(self).content(&*final(c)),
            old(self).others_kept(&*final(self), old(c).ids@),
            final(c).slab_offset == old(c).slab_offset,
            forall|k: int|
                0 <= k < clear_count(old(c).ids@, slab_id) ==> !final(self).used(
                    #[trigger] old(c).ids@[k] as int,
                ),
    {
        let ghost old_s = *self;
        let ghost old_c = *c;
        let ghost ids0 = old_c.ids@;
        let ghost n = ids0.len();
        let ghost m = clear_count(ids0, slab_id);
        proof {
            if ids0.contains(slab_id) {
                assert(ids0[ids0.index_of(slab_id)] == slab_id);
            }
            assert(ids0.skip(0) =~= ids0);
            assert(old_s.content_upto(&old_c, 0) + old_s.content(&old_c) =~= old_s.content(&old_c));
        }
        let mut cur = c.first_slab;
        let ghost mut i: nat = 0;
        loop
            invariant_except_break
                cur == if i < n {
                    ids0[i as int]
                } else {
                    NO_SLAB
                },
                forall|k: int| 0 <= k < i ==> ids0[k] != slab_id,
            invariant
                self.wf(),
                self.chain_ok(&*c),
                i <= m <= n,
                ids0 == old_c.ids@,
                n == ids0.len(),
                m == clear_count(ids0, slab_id),
                c.ids@ == ids0.skip(i as int),
                ids0.contains(slab_id) ==> 0 <= ids0.index_of(slab_id) < n && ids0[ids0.index_of(slab_id)]
                    == slab_id,
                c.slab_offset == old_c.slab_offset,
                old_s.wf(),
                old_s.chain_ok(&old_c),
                old_s.content(&old_c) == old_s.content_upto(&old_c, i) + self.content(&*c),
                old_s.others_kept(&*self, ids0),
                forall|k: int| i <= k < n ==> #[trigger] self.slab(ids0[k] as int) == old_s.slab(ids0[k] as int),
                forall|k: int| 0 <= k < i ==> !self.used(#[trigger] ids0[k] as int),
            ensures
                forall|k: int| 0 <= k < m ==> !self.used(#[trigger] ids0[k] as int),
                i == m,
                c.ids@ == ids0.skip(m as int),
                self.wf(),
                self.chain_ok(&*c),
                c.slab_offset == old_c.slab_offset,
                old_s.content(&old_c) == old_s.content_upto(&old_c, m) + self.content(&*c),
                old_s.others_kept(&*self, ids0),
            decreases n - i,
        {
            if cur >= NO_SLAB {
                c.first_slab = NO_SLAB;
                c.last_slab = NO_SLAB;
                proof {
                    assert(i == n);
                    if ids0.contains(slab_id) {
                        assert(ids0[ids0.index_of(slab_id)] == slab_id);
                    }
                    assert(m == n);
                }
                break;
            }
            let ghost s_before = *self;
            let ghost c_before = *c;
            proof {
                assert(c.ids@[0] == ids0[i as int]);
                assert(c.ids@.len() > 0);
            }
            let next = self.read_next(cur);
            self.release(cur);
            c.first_slab = next;
            if c.first_slab >= NO_SLAB {
                c.last_slab = c.first_slab;
            }
            c.ids = Ghost(ids0.skip((i + 1) as int));
            proof {
                assert(c.ids@ =~= c_before.ids@.drop_first());
                lemma_drop_first(&s_before, &c_before, &*self, &*c);
                assert(s_before.chunk(&c_before, 0) == old_s.chunk(&old_c, i as int)) by {
                    assert(s_before.slab(ids0[i as int] as int) == old_s.slab(ids0[i as int] as int));
                    if i + 1 < n {
                        assert(ids0[i as int] != ids0[n - 1]);
                    }
                }
                assert(old_s.content_upto(&old_c, i + 1) == old_s.content_upto(&old_c, i) + old_s.chunk(
                    &old_c,
                    i as int,
                ));
                assert(old_s.content(&old_c) =~= old_s.content_upto(&old_c, (i + 1) as nat) + self.content(&*c));
                assert forall|j: int|
                    #![trigger self.used(j)]
                    #![trigger self.slab(j)]
                    0 <= j < old_s.count() && old_s.used(j) && !ids0.contains(j as usize) implies self.used(j)
                    && self.slab(j) == old_s.slab(j) by {
                    assert(ids0[i as int] == cur);
                    assert(ids0.contains(cur));
                    assert(j != cur);
                    assert(s_before.slab(j) == old_s.slab(j));
                    assert(s_before.used(j));
                }
                assert(self.size() == old_s.size());
                assert(self.count() == old_s.count());
                assert(old_s.others_kept(&*self, ids0));
                assert forall|k: int| i + 1 <= k < n implies #[trigger] self.slab(ids0[k] as int) == old_s.slab(
                    ids0[k] as int,
                ) by {
                    assert(s_before.slab(ids0[k] as int) == old_s.slab(ids0[k] as int));
                }
                if i + 1 < n {
                    assert(next == c_before.ids@[1]);
                    assert(c_before.ids@[1] == ids0[(i + 1) as int]);
                }
                assert forall|k: int| 0 <= k < i + 1 implies !self.used(#[trigger] ids0[k] as int) by {
                    if k < i {
                        assert(ids0[k] != ids0[i as int]);
                        assert(!s_before.used(ids0[k] as int));
                    }
                }
            }
            let done = cur == slab_id;
            proof {
                i = i + 1;
                if done {
                    assert(ids0.contains(slab_id)) by {
                        assert(ids0[i - 1] == slab_id);
                    }
                    let q = ids0.index_of(slab_id);
                    assert(ids0[q] == slab_id);
                    if q != i - 1 {
                        assert(ids0[q] != ids0[i - 1]);
                    }
                    assert(ids0.index_of(slab_id) == i - 1);
                }
            }
            if done {
                break;
            }
            cur = next;
        }
    }
}

impl ReadSlabs {
    /// Frees all the slabs of chain `c`, which then holds nothing.
    pub fn clear_all(&mut self, c: &mut ReadChain)
        requires
            old(self).wf(),
            old(self).chain_ok(&*old(c)),
        ensures
            final(self).wf(),
            final(self).chain_ok(&*final(c)),
            final(c).ids@ == Seq::<usize>::empty(),
            final(self).content(&*final(c)) == Seq::<u8>::empty(),
            old(self).others_kept(&*final(self), old(c).ids@),
            forall|k: int| 0 <= k < old(c).ids@.len() ==> !final(self).used(#[trigger] old(c).ids@[k] as int),
    {
        let ghost ids0 = c.ids@;
        let last = c.last_slab;
        proof {
            if ids0.len() > 0 {
                assert(ids0[ids0.len() - 1] == last);
                assert(ids0.contains(last));
                let q = ids0.index_of(last);
                assert(ids0[q] == last);
                if q != ids0.len() - 1 {
                    assert(ids0[q] != ids0[ids0.len() - 1]);
                }
            } else {
                assert(!ids0.contains(last));
            }
            assert(clear_count(ids0, last) == ids0.len());
        }
        self.clear_through(c, last);
        assert(c.ids@ =~= Seq::<usize>::empty());
    }
}

} // verus!

//! The low-level chunk allocator.
//!
//! A [`RawArena`] owns a chain of chunks and bump-allocates downward inside
//! the current one.  The arena is modeled by [`ArenaModel`]: every chunk is a
//! half-open address range `[base, base + capacity)` carved from a frontier
//! of fresh addresses, and a finger inside each chunk separates the allocated
//! upper part from the free lower part.  All contracts of this module speak
//! about that model.

use vstd::prelude::*;

use crate::private::Try;

use crate::layout::{
    align_down, align_up, is_pow2, lemma_align_down, lemma_align_down_exact,
    lemma_align_down_monotone, lemma_mod_16_divides, lemma_pow2_divides_16, Layout,
};

verus! {

/// Alignment every chunk base and capacity is a multiple of.
pub const CHUNK_ALIGNMENT: usize = 16;

/// Content capacity of the first chunk when no capacity was asked for.
pub const DEFAULT_CAPACITY: usize = 1024;

/// The first address the arena hands out; keeping it positive keeps every
/// returned address distinct from a null pointer.
pub const BASE_ORIGIN: usize = 16;

/// Mathematical image of one chunk: an address range `[base, base + capacity)`
/// and the finger that separates its free lower part from its allocated
/// upper part.
pub ghost struct ChunkModel {
    pub base: int,
    pub capacity: int,
    pub finger: int,
}

impl ChunkModel {
    /// Address one past the last byte of the chunk.
    pub open spec fn end(self) -> int {
        self.base + self.capacity
    }

    /// A chunk is well formed when its range is aligned, nonempty, below the
    /// frontier, and the finger lies inside it.  An empty chunk has
    /// `finger == end`; a full one has `finger == base`.
    pub open spec fn wf(self, frontier: int) -> bool {
        &&& self.base % (CHUNK_ALIGNMENT as int) == 0
        &&& self.base >= BASE_ORIGIN
        &&& 0 < self.capacity
        &&& self.capacity % (CHUNK_ALIGNMENT as int) == 0
        &&& self.end() <= frontier
        &&& self.base <= self.finger <= self.end()
    }

    /// True when a downward bump for `size` bytes at alignment `align` stays
    /// inside the chunk.
    pub open spec fn fits(self, size: int, align: int) -> bool {
        align_down(self.finger - size, align) >= self.base
    }

    /// The downward bump itself: the new chunk and the address handed out.
    /// A zero-sized request leaves the finger where it is.
    pub open spec fn bump(self, size: int, align: int) -> (ChunkModel, int) {
        let addr = align_down(self.finger - size, align);
        if size == 0 {
            (self, addr)
        } else {
            (ChunkModel { finger: addr, ..self }, addr)
        }
    }

    /// The chunk emptied: the finger back at the end.
    pub open spec fn reset(self) -> ChunkModel {
        ChunkModel { finger: self.end(), ..self }
    }
}

/// Two chunks hold disjoint address ranges.
pub open spec fn chunks_disjoint(a: ChunkModel, b: ChunkModel) -> bool {
    a.end() <= b.base || b.end() <= a.base
}

/// Mathematical image of a whole arena.
///
/// `chunks` lists every chunk in chain order.  The chunks with index below
/// `current` are active; the chunk at `current - 1` (when there is one) is the
/// one allocations bump into.  Chunks at `current` and beyond were retained by
/// an earlier restore and are re-adopted lazily, their finger reset, when the
/// current chunk overflows.  `next_base` is the frontier from which backing
/// ranges for new chunks are carved.
pub ghost struct ArenaModel {
    pub chunks: Seq<ChunkModel>,
    pub current: int,
    pub next_base: int,
}

impl ArenaModel {
    /// The arena with no chunks at all.
    pub open spec fn empty() -> ArenaModel {
        ArenaModel { chunks: Seq::empty(), current: 0, next_base: BASE_ORIGIN as int }
    }

    pub open spec fn wf(self) -> bool {
        &&& 0 <= self.current <= self.chunks.len()
        &&& CHUNK_ALIGNMENT * self.chunks.len() + BASE_ORIGIN <= self.next_base
        &&& self.next_base % (CHUNK_ALIGNMENT as int) == 0
        &&& BASE_ORIGIN <= self.next_base <= usize::MAX
        &&& forall|i: int|
            0 <= i < self.chunks.len() ==> (#[trigger] self.chunks[i]).wf(self.next_base)
        &&& forall|i: int, j: int|
            0 <= i < j < self.chunks.len() ==> chunks_disjoint(
                self.chunks[i],
                self.chunks[j],
            )
    }

    /// The chunk allocations currently bump into.
    pub open spec fn cur(self) -> ChunkModel {
        self.chunks[self.current - 1]
    }

    /// The model with the chunk at `i` replaced.
    pub open spec fn update_chunk(self, i: int, c: ChunkModel) -> ArenaModel {
        ArenaModel { chunks: self.chunks.update(i, c), ..self }
    }

    /// The snapshot `current_state` returns: which chunk is current and where
    /// its finger stands, or `None` while the arena has no current chunk.
    pub open spec fn state(self) -> Option<RawArenaState> {
        if self.current == 0 {
            None
        } else {
            Some(
                RawArenaState {
                    chunk: (self.current - 1) as usize,
                    finger: self.cur().finger as usize,
                },
            )
        }
    }

    /// Address `addr` lies inside the allocated part of an active chunk.
    pub open spec fn live(self, addr: int) -> bool {
        exists|j: int|
            0 <= j < self.current && (#[trigger] self.chunks[j]).finger <= addr
                < self.chunks[j].end()
    }

    /// The whole range `[lo, hi)` is allocated.
    pub open spec fn live_range(self, lo: int, hi: int) -> bool {
        forall|a: int| lo <= a < hi ==> self.live(a)
    }

    /// The two models put their active chunks at the same addresses: the
    /// observable position of the arena is the same.
    pub open spec fn pos_eq(self, other: ArenaModel) -> bool {
        &&& self.current == other.current
        &&& forall|j: int| 0 <= j < self.current ==> self.chunks[j] == other.chunks[j]
    }

    /// `self` is a state the arena can reach from `pre` by allocating:
    /// well-formedness is kept, chunks are never removed, the current chunk
    /// can only move up the chain, the ranges of chunks that were active stay
    /// where they were, and the fingers of active chunks below the current
    /// one do not move.  Restores back to snapshots taken at or above
    /// `pre.current` stay inside this relation.
    pub open spec fn extends(self, pre: ArenaModel) -> bool {
        &&& (pre.wf() ==> self.wf())
        &&& self.current >= pre.current
        &&& self.chunks.len() >= pre.chunks.len()
        &&& self.next_base >= pre.next_base
        &&& forall|j: int|
            0 <= j < pre.current ==> ((#[trigger] self.chunks[j]).base == pre.chunks[j].base
                && self.chunks[j].capacity == pre.chunks[j].capacity)
        &&& forall|j: int|
            0 <= j < pre.current - 1 ==> (#[trigger] self.chunks[j]).finger
                == pre.chunks[j].finger
    }

    /// A snapshot can be restored in this model: it names an existing chunk
    /// and a finger inside it.
    pub open spec fn state_valid(self, s: Option<RawArenaState>) -> bool {
        match s {
            None => true,
            Some(st) => st.chunk < self.chunks.len() && self.chunks[st.chunk as int].base
                <= st.finger <= self.chunks[st.chunk as int].end(),
        }
    }

    /// What restoring a snapshot does: the named chunk becomes current again
    /// with its finger moved back, or, for `None`, the arena is reset.
    pub open spec fn restore(self, s: Option<RawArenaState>) -> ArenaModel {
        match s {
            None => self.reset(),
            Some(st) => ArenaModel {
                chunks: self.chunks.update(
                    st.chunk as int,
                    ChunkModel { finger: st.finger as int, ..self.chunks[st.chunk as int] },
                ),
                current: st.chunk + 1,
                ..self
            },
        }
    }

    /// What acquiring a chunk for `request` content bytes does, or `None` when
    /// the address space is exhausted.  A retained chunk further down the
    /// chain is adopted, its finger reset, when the request fits its
    /// capacity; a too-small retained chunk is regrown in place, keeping its
    /// position in the chain but taking a fresh backing range.  Otherwise a
    /// chunk doubling the current capacity (or of `default_capacity` when
    /// there is no chunk) is linked at the tail, enlarged to the request if
    /// that is bigger.
    pub open spec fn grow(self, request: int, default_capacity: int) -> Option<ArenaModel> {
        if self.current < self.chunks.len() {
            let next = self.chunks[self.current];
            if request <= next.capacity {
                Some(
                    ArenaModel {
                        chunks: self.chunks.update(self.current, next.reset()),
                        current: self.current + 1,
                        ..self
                    },
                )
            } else {
                let cap = align_up(request, CHUNK_ALIGNMENT as int);
                if request + 15 <= usize::MAX && self.next_base + cap <= usize::MAX {
                    Some(
                        ArenaModel {
                            chunks: self.chunks.update(
                                self.current,
                                ChunkModel {
                                    base: self.next_base,
                                    capacity: cap,
                                    finger: self.next_base + cap,
                                },
                            ),
                            current: self.current + 1,
                            next_base: self.next_base + cap,
                        },
                    )
                } else {
                    None
                }
            }
        } else {
            let doubled = if self.current > 0 {
                vstd::math::min(2 * self.cur().capacity, usize::MAX as int)
            } else {
                default_capacity
            };
            let want = vstd::math::max(doubled, request);
            let cap = align_up(want, CHUNK_ALIGNMENT as int);
            if want + 15 <= usize::MAX && self.next_base + cap <= usize::MAX {
                Some(
                    ArenaModel {
                        chunks: self.chunks.push(
                            ChunkModel {
                                base: self.next_base,
                                capacity: cap,
                                finger: self.next_base + cap,
                            },
                        ),
                        current: self.chunks.len() as int + 1,
                        next_base: self.next_base + cap,
                    },
                )
            } else {
                None
            }
        }
    }

    /// What one allocation does: the state after it, and the address handed
    /// out, or `None` when the address space cannot cover the request.  The
    /// fast path bumps the current chunk's finger; the slow path first
    /// acquires a chunk through [`ArenaModel::grow`].
    pub open spec fn spec_alloc(self, size: int, align: int) -> (ArenaModel, Option<int>) {
        if self.current > 0 && self.cur().fits(size, align) {
            let (c2, addr) = self.cur().bump(size, align);
            (self.update_chunk(self.current - 1, c2), Some(addr))
        } else {
            match self.grow(size, DEFAULT_CAPACITY as int) {
                None => (self, None),
                Some(grown) => {
                    if grown.cur().fits(size, align) {
                        let (c2, addr) = grown.cur().bump(size, align);
                        (grown.update_chunk(grown.current - 1, c2), Some(addr))
                    } else {
                        (grown, None)
                    }
                },
            }
        }
    }

    /// The allocation succeeds: the arena can hand out an address for this
    /// request without exhausting the address space.
    pub open spec fn can_alloc(self, size: int, align: int) -> bool {
        self.spec_alloc(size, align).1 is Some
    }

    /// The capacity a doubling grow starts from: that of the current chunk,
    /// or the default when there is none.
    pub open spec fn double_base(self) -> int {
        if self.current > 0 {
            self.cur().capacity
        } else {
            DEFAULT_CAPACITY as int
        }
    }

    /// True when the fast realloc path applies to this request: the pointer
    /// is the topmost allocation of the current chunk, aligned, its padded
    /// old extent lies inside the chunk, and the old size is not zero.
    pub open spec fn fast_realloc_applies(self, ptr: int, size: int, align: int) -> bool {
        &&& self.current > 0
        &&& self.cur().finger == ptr
        &&& size != 0
        &&& ptr % align == 0
        &&& ptr + align_up(size, align) <= self.cur().end()
    }

    /// What reallocating the topmost allocation does: the new state, the
    /// address of the reallocated object, and the freed address when the old
    /// bytes can be reused.  A shrink moves the finger up and frees the old
    /// address; a grow retracts it when the chunk has room, moving the object
    /// without freeing anything; everything else falls back to a fresh
    /// allocation that frees the old address.
    pub open spec fn spec_realloc(self, ptr: int, size: int, align: int, new_size: int) -> (
        ArenaModel,
        int,
        Option<int>,
    ) {
        let old_p = align_up(size, align);
        let new_p = align_up(new_size, align);
        if self.fast_realloc_applies(ptr, size, align) {
            if old_p >= new_p {
                let f = ptr + (old_p - new_p);
                (
                    self.update_chunk(self.current - 1, ChunkModel { finger: f, ..self.cur() }),
                    f,
                    Some(ptr),
                )
            } else {
                if ptr - (new_p - old_p) >= self.cur().base {
                    let f = ptr - (new_p - old_p);
                    (
                        self.update_chunk(self.current - 1, ChunkModel { finger: f, ..self.cur() }),
                        f,
                        None,
                    )
                } else {
                    let (m2, r) = self.spec_alloc(new_size, align);
                    (m2, r->Some_0, Some(ptr))
                }
            }
        } else {
            let (m2, r) = self.spec_alloc(new_size, align);
            (m2, r->Some_0, Some(ptr))
        }
    }

    /// The reallocation succeeds: either in place, or because a fresh
    /// allocation of the new size is possible.
    pub open spec fn realloc_ok(self, ptr: int, size: int, align: int, new_size: int) -> bool {
        let old_p = align_up(size, align);
        let new_p = align_up(new_size, align);
        if self.fast_realloc_applies(ptr, size, align) && (old_p >= new_p || ptr - (new_p - old_p)
            >= self.cur().base) {
            true
        } else {
            self.can_alloc(new_size, align)
        }
    }

    /// The arena `with_capacity` builds: empty, or holding one chunk of at
    /// least `capacity` content bytes.
    pub open spec fn initial(capacity: int) -> ArenaModel {
        if capacity == 0 {
            ArenaModel::empty()
        } else {
            ArenaModel::empty().grow(0, capacity)->Some_0
        }
    }

    /// What a reset does: every active chunk is emptied, with the current
    /// chunk staying current, its finger back at its end; all backing ranges
    /// are retained and the next allocation bumps into the current chunk.
    pub open spec fn reset(self) -> ArenaModel {
        ArenaModel {
            chunks: Seq::new(
                self.chunks.len(),
                |i: int| if i < self.current { self.chunks[i].reset() } else { self.chunks[i] },
            ),
            ..self
        }
    }
}

/// Extending is transitive: one more run of allocating operations still
/// extends the state the first run started from.
pub broadcast proof fn lemma_extends_trans(a: ArenaModel, b: ArenaModel, c: ArenaModel)
    requires
        #[trigger] b.extends(a),
        #[trigger] c.extends(b),
    ensures
        c.extends(a),
{
}

/// What acquiring a chunk guarantees when it succeeds: a well-formed state
/// that extends the old one, whose new current chunk is empty and holds at
/// least the requested bytes.
proof fn lemma_grow(m: ArenaModel, request: int, default_capacity: int)
    requires
        m.wf(),
        0 <= request,
        0 < default_capacity,
    ensures
        match m.grow(request, default_capacity) {
            None => true,
            Some(g) => {
                &&& g.wf()
                &&& g.extends(m)
                &&& g.current == m.current + 1 || (m.current == m.chunks.len() && g.current
                    == m.chunks.len() + 1)
                &&& 1 <= g.current <= g.chunks.len()
                &&& g.cur().finger == g.cur().end()
                &&& g.cur().capacity >= request
            },
        },
{
    let g_opt = m.grow(request, default_capacity);
    if g_opt is Some {
        let g = g_opt->Some_0;
        if m.current < m.chunks.len() {
            let next = m.chunks[m.current];
            assert(next.wf(m.next_base));
            if request <= next.capacity {
                assert forall|i: int| 0 <= i < g.chunks.len() implies (#[trigger] g.chunks[i]).wf(
                    g.next_base,
                ) by {
                    assert(m.chunks[i].wf(m.next_base));
                }
                assert forall|i: int, j: int|
                    0 <= i < j < g.chunks.len() implies chunks_disjoint(
                    g.chunks[i],
                    g.chunks[j],
                ) by {
                    assert(chunks_disjoint(m.chunks[i], m.chunks[j]));
                }
            } else {
                let cap = align_up(request, CHUNK_ALIGNMENT as int);
                lemma_align_down(request + 15, CHUNK_ALIGNMENT as int);
                assert(cap % 16int == 0 && request <= cap <= request + 15);
                assert forall|i: int| 0 <= i < g.chunks.len() implies (#[trigger] g.chunks[i]).wf(
                    g.next_base,
                ) by {
                    assert(m.chunks[i].wf(m.next_base));
                }
                assert forall|i: int, j: int|
                    0 <= i < j < g.chunks.len() implies chunks_disjoint(
                    g.chunks[i],
                    g.chunks[j],
                ) by {
                    assert(chunks_disjoint(m.chunks[i], m.chunks[j]));
                    assert(m.chunks[i].wf(m.next_base));
                    assert(m.chunks[j].wf(m.next_base));
                }
            }
        } else {
            let doubled = if m.current > 0 {
                vstd::math::min(2 * m.cur().capacity, usize::MAX as int)
            } else {
                default_capacity
            };
            let want = vstd::math::max(doubled, request);
            let cap = align_up(want, CHUNK_ALIGNMENT as int);
            lemma_align_down(want + 15, CHUNK_ALIGNMENT as int);
            if m.current > 0 {
                assert(m.cur().wf(m.next_base));
            }
            assert(cap % 16int == 0 && want <= cap <= want + 15);
            assert forall|i: int| 0 <= i < g.chunks.len() implies (#[trigger] g.chunks[i]).wf(
                g.next_base,
            ) by {
                if i < m.chunks.len() {
                    assert(m.chunks[i].wf(m.next_base));
                }
            }
            assert forall|i: int, j: int| 0 <= i < j < g.chunks.len() implies chunks_disjoint(
                g.chunks[i],
                g.chunks[j],
            ) by {
                if j < m.chunks.len() {
                    assert(chunks_disjoint(m.chunks[i], m.chunks[j]));
                } else {
                    assert(m.chunks[i].wf(m.next_base));
                }
            }
        }
    }
}

/// A chunk whose base the alignment divides, and whose free room below the
/// finger holds `size` bytes, accepts the bump: the address is aligned, sits
/// inside the chunk, and the `size` bytes from it end at or below the finger.
proof fn lemma_bump(c: ChunkModel, frontier: int, size: int, align: int)
    requires
        c.wf(frontier),
        0 <= size,
        0 < align <= CHUNK_ALIGNMENT,
        is_pow2(align as nat),
        c.fits(size, align),
    ensures
        ({
            let (c2, addr) = c.bump(size, align);
            &&& addr % align == 0
            &&& c.base <= addr
            &&& addr + size <= c.finger
            &&& c2.base == c.base && c2.capacity == c.capacity
            &&& c2.finger == if size == 0 {
                c.finger
            } else {
                addr
            }
            &&& c2.wf(frontier)
        }),
{
    lemma_align_down(c.finger - size, align);
}

/// With an alignment that divides the chunk alignment, an empty chunk with
/// room for `size` bytes accepts the bump.
proof fn lemma_fits_empty(c: ChunkModel, frontier: int, size: int, align: int)
    requires
        c.wf(frontier),
        c.finger == c.end(),
        0 <= size <= c.capacity,
        0 < align <= CHUNK_ALIGNMENT,
        is_pow2(align as nat),
    ensures
        c.fits(size, align),
{
    lemma_pow2_divides_16(align);
    lemma_mod_16_divides(c.base, align);
    lemma_align_down_exact(c.base, align);
    lemma_align_down_monotone(c.base, c.finger - size, align);
}

/// What one allocation guarantees.  The state is well formed and extends the
/// old one; the address handed out is aligned, lies inside the current chunk,
/// was not live before, and is live now together with everything that was;
/// and a zero-sized request moves no finger.
pub proof fn lemma_spec_alloc(m: ArenaModel, size: int, align: int)
    requires
        m.wf(),
        0 <= size,
        0 < align <= CHUNK_ALIGNMENT,
        is_pow2(align as nat),
    ensures
        ({
            let (m2, r) = m.spec_alloc(size, align);
            &&& m2.wf()
            &&& m2.extends(m)
            &&& match r {
                None => true,
                Some(addr) => {
                    &&& addr % align == 0
                    &&& BASE_ORIGIN <= addr <= usize::MAX
                    &&& addr + size <= usize::MAX
                    &&& 1 <= m2.current
                    &&& m2.cur().base <= addr && addr + size <= m2.cur().end()
                    &&& (size > 0 ==> m2.cur().finger == addr)
                    &&& forall|b: int| addr <= b < addr + size ==> !m.live(b)
                    &&& forall|b: int| addr <= b < addr + size ==> m2.live(b)
                    &&& forall|b: int| m.live(b) ==> m2.live(b)
                    &&& (size == 0 ==> forall|j: int|
                        0 <= j < m.current ==> (#[trigger] m2.chunks[j]).finger
                            == m.chunks[j].finger)
                    &&& (size == 0 && m.current > 0 ==> m2 == m)
                },
            }
        }),
{
    let (m2, r) = m.spec_alloc(size, align);
    if size == 0 && m.current > 0 {
        let cur = m.cur();
        assert(cur.wf(m.next_base));
        lemma_pow2_divides_16(align);
        lemma_mod_16_divides(cur.base, align);
        lemma_align_down_exact(cur.base, align);
        lemma_align_down_monotone(cur.base, cur.finger, align);
        assert(cur.fits(size, align));
    }
    if m.current > 0 && m.cur().fits(size, align) {
        let cur = m.cur();
        assert(cur.wf(m.next_base));
        lemma_bump(cur, m.next_base, size, align);
        let (c2, addr) = cur.bump(size, align);
        if size == 0 {
            assert(m2.chunks =~= m.chunks);
        }
        assert forall|i: int| 0 <= i < m2.chunks.len() implies (#[trigger] m2.chunks[i]).wf(
            m2.next_base,
        ) by {
            assert(m.chunks[i].wf(m.next_base));
        }
        assert forall|i: int, j: int| 0 <= i < j < m2.chunks.len() implies chunks_disjoint(
            m2.chunks[i],
            m2.chunks[j],
        ) by {
            assert(chunks_disjoint(m.chunks[i], m.chunks[j]));
        }
        assert forall|b: int| addr <= b < addr + size implies !m.live(b) by {
            lemma_not_live_below_finger(m, b, m.current - 1);
        }
        assert forall|b: int| addr <= b < addr + size implies m2.live(b) by {
            assert(m2.chunks[m2.current - 1].finger <= b < m2.chunks[m2.current - 1].end());
        }
        assert forall|b: int| m.live(b) implies m2.live(b) by {
            let j = choose|j: int|
                0 <= j < m.current && (#[trigger] m.chunks[j]).finger <= b < m.chunks[j].end();
            assert(m2.chunks[j].finger <= b < m2.chunks[j].end());
        }
    } else {
        lemma_grow(m, size, DEFAULT_CAPACITY as int);
        match m.grow(size, DEFAULT_CAPACITY as int) {
            None => {},
            Some(grown) => {
                lemma_fits_empty(grown.cur(), grown.next_base, size, align);
                let cur = grown.cur();
                lemma_bump(cur, grown.next_base, size, align);
                let (c2, addr) = cur.bump(size, align);
                assert forall|i: int| 0 <= i < m2.chunks.len() implies (
                #[trigger] m2.chunks[i]).wf(m2.next_base) by {
                    assert(grown.chunks[i].wf(grown.next_base));
                }
                assert forall|i: int, j: int|
                    0 <= i < j < m2.chunks.len() implies chunks_disjoint(
                    m2.chunks[i],
                    m2.chunks[j],
                ) by {
                    assert(chunks_disjoint(grown.chunks[i], grown.chunks[j]));
                }
                assert(m2.extends(grown) && grown.extends(m));
                lemma_extends_trans(m, grown, m2);
                assert forall|b: int| addr <= b < addr + size implies !m.live(b) by {
                    if m.live(b) {
                        let j = choose|j: int|
                            0 <= j < m.current && (#[trigger] m.chunks[j]).finger <= b
                                < m.chunks[j].end();
                        assert(m.chunks[j].wf(m.next_base));
                        if m.current < m.chunks.len() && size <= m.chunks[m.current].capacity {
                            assert(chunks_disjoint(m.chunks[j], m.chunks[m.current]));
                        } else {
                            assert(cur.base >= m.next_base);
                        }
                        assert(false);
                    }
                }
                assert forall|b: int| addr <= b < addr + size implies m2.live(b) by {
                    assert(m2.chunks[m2.current - 1].finger <= b < m2.chunks[m2.current
                        - 1].end());
                }
                assert forall|b: int| m.live(b) implies m2.live(b) by {
                    let j = choose|j: int|
                        0 <= j < m.current && (#[trigger] m.chunks[j]).finger <= b
                            < m.chunks[j].end();
                    assert(m2.chunks[j].finger <= b < m2.chunks[j].end());
                }
            },
        }
    }
}

/// A sufficient headroom condition for an allocation to succeed: the frontier
/// leaves room for the request even after the chunk doubling, so the arena
/// cannot run out of addresses on this request.
pub proof fn lemma_can_alloc(m: ArenaModel, size: int, align: int)
    requires
        m.wf(),
        0 <= size,
        0 < align <= CHUNK_ALIGNMENT,
        is_pow2(align as nat),
        m.next_base + 2 * m.double_base() + size + 31 <= usize::MAX,
    ensures
        m.can_alloc(size, align),
{
    if m.current > 0 && m.cur().fits(size, align) {
    } else {
        lemma_grow(m, size, DEFAULT_CAPACITY as int);
        if m.current > 0 {
            assert(m.cur().wf(m.next_base));
        }
        if m.current < m.chunks.len() {
            assert(m.chunks[m.current].wf(m.next_base));
            if size <= m.chunks[m.current].capacity {
            } else {
                lemma_align_down(size + 15, CHUNK_ALIGNMENT as int);
            }
        } else {
            lemma_align_down(
                vstd::math::max(
                    if m.current > 0 {
                        vstd::math::min(2 * m.cur().capacity, usize::MAX as int)
                    } else {
                        DEFAULT_CAPACITY as int
                    },
                    size,
                ) + 15,
                CHUNK_ALIGNMENT as int,
            );
        }
        let grown = m.grow(size, DEFAULT_CAPACITY as int)->Some_0;
        lemma_fits_empty(grown.cur(), grown.next_base, size, align);
    }
}

/// What one reallocation guarantees: a well-formed state extending the old
/// one, an aligned address whose `new_size` bytes lie inside the current
/// chunk and are live, the freed address reported exactly when the object did
/// not grow in place, and, after a shrink, the old bytes above the finger
/// dead and ready for reuse.
pub proof fn lemma_spec_realloc(m: ArenaModel, ptr: int, size: int, align: int, new_size: int)
    requires
        m.wf(),
        0 <= size,
        0 <= new_size,
        0 < align <= CHUNK_ALIGNMENT,
        is_pow2(align as nat),
        size + align <= usize::MAX,
        new_size + align <= usize::MAX,
        m.realloc_ok(ptr, size, align, new_size),
    ensures
        ({
            let (m2, np, freed) = m.spec_realloc(ptr, size, align, new_size);
            &&& m2.wf()
            &&& m2.extends(m)
            &&& np % align == 0
            &&& 1 <= m2.current
            &&& m2.cur().base <= np && np + new_size <= m2.cur().end()
            &&& (new_size > 0 ==> m2.cur().finger == np)
            &&& forall|b: int| np <= b < np + new_size ==> m2.live(b)
            &&& (freed is None ==> np + new_size <= ptr + align_up(size, align))
            &&& (m.fast_realloc_applies(ptr, size, align) && align_up(size, align) >= align_up(
                new_size,
                align,
            ) ==> (freed == Some(ptr) && np == ptr + align_up(size, align) - align_up(
                new_size,
                align,
            ) && forall|b: int| ptr <= b < np ==> !m2.live(b)))
        }),
{
    let old_p = align_up(size, align);
    let new_p = align_up(new_size, align);
    let (m2, np, freed) = m.spec_realloc(ptr, size, align, new_size);
    lemma_align_down(size + align - 1, align);
    lemma_align_down(new_size + align - 1, align);
    if m.fast_realloc_applies(ptr, size, align) && (old_p >= new_p || ptr - (new_p - old_p)
        >= m.cur().base) {
        let cur = m.cur();
        assert(cur.wf(m.next_base));
        let f = if old_p >= new_p {
            ptr + (old_p - new_p)
        } else {
            ptr - (new_p - old_p)
        };
        assert(np == f);
        assert(cur.base <= f <= cur.end());
        assert forall|i: int| 0 <= i < m2.chunks.len() implies (#[trigger] m2.chunks[i]).wf(
            m2.next_base,
        ) by {
            assert(m.chunks[i].wf(m.next_base));
        }
        assert forall|i: int, j: int| 0 <= i < j < m2.chunks.len() implies chunks_disjoint(
            m2.chunks[i],
            m2.chunks[j],
        ) by {
            assert(chunks_disjoint(m.chunks[i], m.chunks[j]));
        }
        assert(np % align == 0) by {
            lemma_align_down(ptr, align);
            assert(old_p % align == 0 && new_p % align == 0 && ptr % align == 0);
            if old_p >= new_p {
                vstd::arithmetic::div_mod::lemma_add_mod_noop(ptr, old_p - new_p, align);
                vstd::arithmetic::div_mod::lemma_sub_mod_noop(old_p, new_p, align);
            } else {
                vstd::arithmetic::div_mod::lemma_sub_mod_noop(ptr, new_p - old_p, align);
                vstd::arithmetic::div_mod::lemma_sub_mod_noop(new_p, old_p, align);
            }
        }
        assert forall|b: int| np <= b < np + new_size implies m2.live(b) by {
            assert(m2.chunks[m2.current - 1].finger <= b < m2.chunks[m2.current - 1].end());
        }
        if old_p >= new_p {
            assert forall|b: int| ptr <= b < np implies !m2.live(b) by {
                lemma_not_live_below_finger(m2, b, m2.current - 1);
            }
        }
    } else {
        lemma_spec_alloc(m, new_size, align);
    }
}

/// Restoring a valid snapshot keeps the arena well formed.
pub proof fn lemma_restore_wf(m: ArenaModel, s: Option<RawArenaState>)
    requires
        m.wf(),
        m.state_valid(s),
    ensures
        m.restore(s).wf(),
{
    let r = m.restore(s);
    assert forall|i: int| 0 <= i < r.chunks.len() implies (#[trigger] r.chunks[i]).wf(
        r.next_base,
    ) by {
        assert(m.chunks[i].wf(m.next_base));
    }
    assert forall|i: int, j: int| 0 <= i < j < r.chunks.len() implies chunks_disjoint(
        r.chunks[i],
        r.chunks[j],
    ) by {
        assert(chunks_disjoint(m.chunks[i], m.chunks[j]));
    }
}

/// The snapshot of any earlier state stays valid across every allocating
/// operation: those operations only extend the arena.
pub proof fn lemma_snapshot_valid(pre: ArenaModel, post: ArenaModel)
    requires
        pre.wf(),
        post.extends(pre),
    ensures
        post.state_valid(pre.state()),
{
    if pre.current > 0 {
        assert(pre.cur().wf(pre.next_base));
    }
}

/// Restoring the snapshot of an earlier state puts the arena back at exactly
/// that state: same current chunk, same fingers in every active chunk, and so
/// the same snapshot again.  Taking snapshots and restoring them in reverse
/// order therefore lands back on the first state, step by step.  The one
/// state a restore cannot recreate is the chunkless one: its snapshot is the
/// null marker, whose restore is a reset, which keeps whatever chunk became
/// current in between — but then nothing stays allocated.
pub proof fn lemma_restore_exact(pre: ArenaModel, post: ArenaModel)
    requires
        pre.wf(),
        post.extends(pre),
    ensures
        post.state_valid(pre.state()),
        post.restore(pre.state()).wf(),
        post.restore(pre.state()).extends(pre),
        pre.current > 0 ==> post.restore(pre.state()).pos_eq(pre) && post.restore(
            pre.state(),
        ).state() == pre.state(),
        pre.current == 0 ==> forall|b: int| !post.restore(pre.state()).live(b),
{
    lemma_snapshot_valid(pre, post);
    lemma_restore_wf(post, pre.state());
    let r = post.restore(pre.state());
    if pre.current > 0 {
        assert(pre.cur().wf(pre.next_base));
        assert forall|j: int| 0 <= j < r.current implies r.chunks[j] == pre.chunks[j] by {
            assert(post.chunks[j].base == pre.chunks[j].base);
        }
    } else {
        assert forall|b: int| !r.live(b) by {
            if r.live(b) {
                let j = choose|j: int|
                    0 <= j < r.current && (#[trigger] r.chunks[j]).finger <= b < r.chunks[j].end();
                assert(r.chunks[j] == post.chunks[j].reset());
                assert(false);
            }
        }
    }
}

/// A zero-sized allocation in an arena that has a chunk always succeeds,
/// returns a non-null address aligned to the request, and changes nothing:
/// in particular, the finger does not move.
pub proof fn lemma_zero_size_alloc(m: ArenaModel, align: int)
    requires
        m.wf(),
        0 < align <= CHUNK_ALIGNMENT,
        is_pow2(align as nat),
        m.current > 0,
    ensures
        ({
            let (m2, r) = m.spec_alloc(0, align);
            &&& m2 == m
            &&& r is Some
            &&& r->Some_0 % align == 0
            &&& BASE_ORIGIN <= r->Some_0
        }),
{
    let cur = m.cur();
    assert(cur.wf(m.next_base));
    lemma_pow2_divides_16(align);
    lemma_mod_16_divides(cur.base, align);
    lemma_align_down_exact(cur.base, align);
    lemma_align_down_monotone(cur.base, cur.finger, align);
    assert(cur.fits(0, align));
    lemma_spec_alloc(m, 0, align);
}

/// Distinct live allocations never overlap: an allocation returns a range
/// disjoint from every range that is still live, and leaves all live ranges
/// live.  Since every allocation's range is live from the moment it is handed
/// out until a restore, reset, shrink or displacement kills it, any two
/// allocations whose ranges are both still live are disjoint, by applying
/// this to the later of the two.
pub proof fn lemma_alloc_no_overlap(m: ArenaModel, size: int, align: int, lo: int, hi: int)
    requires
        m.wf(),
        0 < size,
        0 < align <= CHUNK_ALIGNMENT,
        is_pow2(align as nat),
        m.can_alloc(size, align),
        lo < hi,
        m.live_range(lo, hi),
    ensures
        ({
            let (m2, r) = m.spec_alloc(size, align);
            let addr = r->Some_0;
            &&& (addr + size <= lo || hi <= addr)
            &&& m2.live_range(lo, hi)
        }),
{
    lemma_spec_alloc(m, size, align);
    let (m2, r) = m.spec_alloc(size, align);
    let addr = r->Some_0;
    if !(addr + size <= lo || hi <= addr) {
        let b = if addr >= lo {
            addr
        } else {
            lo
        };
        assert(m.live(b));
        assert(!m.live(b));
        assert(false);
    }
}

/// Resetting is idempotent: a second reset changes nothing, and no reset
/// changes which chunks the arena holds.
pub proof fn lemma_reset_idempotent(m: ArenaModel)
    requires
        m.wf(),
    ensures
        m.reset().reset() == m.reset(),
        m.reset().chunks.len() == m.chunks.len(),
        m.reset().wf(),
{
    assert(m.reset().reset().chunks =~= m.reset().chunks);
    let r = m.reset();
    assert forall|i: int| 0 <= i < r.chunks.len() implies (#[trigger] r.chunks[i]).wf(
        r.next_base,
    ) by {
        assert(m.chunks[i].wf(m.next_base));
    }
    assert forall|i: int, j: int| 0 <= i < j < r.chunks.len() implies chunks_disjoint(
        r.chunks[i],
        r.chunks[j],
    ) by {
        assert(chunks_disjoint(m.chunks[i], m.chunks[j]));
    }
}

/// After a reset, an allocation that fits the still-current chunk bumps into
/// it: no new chunk is created and no fresh address range is carved.
pub proof fn lemma_reset_reuse(m: ArenaModel, size: int, align: int)
    requires
        m.wf(),
        m.current > 0,
        0 <= size <= m.cur().capacity,
        0 < align <= CHUNK_ALIGNMENT,
        is_pow2(align as nat),
    ensures
        m.reset().can_alloc(size, align),
        m.reset().spec_alloc(size, align).0.chunks.len() == m.chunks.len(),
        m.reset().spec_alloc(size, align).0.next_base == m.next_base,
{
    let r = m.reset();
    lemma_reset_idempotent(m);
    assert(m.cur().wf(m.next_base));
    assert(r.cur() == m.cur().reset());
    lemma_fits_empty(r.cur(), r.next_base, size, align);
}

/// When the current chunk overflows and no retained chunk is available, the
/// new chunk's capacity at least doubles the current one's, and still holds
/// the request if that is bigger.
pub proof fn lemma_growth_doubling(m: ArenaModel, size: int, align: int)
    requires
        m.wf(),
        0 <= size,
        0 < align <= CHUNK_ALIGNMENT,
        is_pow2(align as nat),
        m.current > 0,
        m.current == m.chunks.len(),
        !m.cur().fits(size, align),
        m.can_alloc(size, align),
        2 * m.cur().capacity <= usize::MAX,
    ensures
        ({
            let m2 = m.spec_alloc(size, align).0;
            &&& m2.chunks.len() == m.chunks.len() + 1
            &&& m2.cur().capacity >= 2 * m.cur().capacity
            &&& m2.cur().capacity >= size
        }),
{
    let want = vstd::math::max(2 * m.cur().capacity, size);
    lemma_align_down(want + 15, CHUNK_ALIGNMENT as int);
    lemma_grow(m, size, DEFAULT_CAPACITY as int);
}

/// After a shrink of the topmost allocation, the freed suffix is reused: the
/// next allocation that fits it is carved from exactly those bytes.
pub proof fn lemma_shrink_reuse(
    m: ArenaModel,
    ptr: int,
    size: int,
    align: int,
    new_size: int,
    next_size: int,
)
    requires
        m.wf(),
        0 <= size,
        0 <= new_size,
        0 < align <= CHUNK_ALIGNMENT,
        is_pow2(align as nat),
        size + align <= usize::MAX,
        new_size + align <= usize::MAX,
        m.fast_realloc_applies(ptr, size, align),
        align_up(new_size, align) <= align_up(size, align),
        0 < next_size <= align_up(size, align) - align_up(new_size, align),
    ensures
        ({
            let (m2, np, freed) = m.spec_realloc(ptr, size, align, new_size);
            let (m3, r2) = m2.spec_alloc(next_size, 1);
            &&& freed == Some(ptr)
            &&& r2 == Some(np - next_size)
            &&& ptr <= np - next_size && np <= ptr + (align_up(size, align) - align_up(
                new_size,
                align,
            ))
        }),
{
    lemma_spec_realloc(m, ptr, size, align, new_size);
    let (m2, np, freed) = m.spec_realloc(ptr, size, align, new_size);
    assert(m.cur().wf(m.next_base));
    assert(m2.cur().fits(next_size, 1)) by {
        lemma_align_down(np - next_size, 1);
    }
    lemma_align_down(np - next_size, 1);
}

/// Below the finger of an active chunk nothing is live: the chunk's own
/// allocations start at the finger, and every other chunk is disjoint.
proof fn lemma_not_live_below_finger(m: ArenaModel, b: int, j: int)
    requires
        m.wf(),
        0 <= j < m.current,
        m.chunks[j].base <= b < m.chunks[j].finger,
    ensures
        !m.live(b),
{
    if m.live(b) {
        let k = choose|k: int|
            0 <= k < m.current && (#[trigger] m.chunks[k]).finger <= b < m.chunks[k].end();
        if k != j {
            if k < j {
                assert(chunks_disjoint(m.chunks[k], m.chunks[j]));
            } else {
                assert(chunks_disjoint(m.chunks[j], m.chunks[k]));
            }
            assert(m.chunks[j].wf(m.next_base));
            assert(m.chunks[k].wf(m.next_base));
        }
        assert(false);
    }
}

/// A point in an arena's allocation history: the chunk that was current and
/// the finger it had.  Restoring it frees everything allocated since.
#[derive(Clone, Copy, Debug, PartialEq, Eq, Structural)]
pub struct RawArenaState {
    pub chunk: usize,
    pub finger: usize,
}

/// A chunk of the arena: a modeled address range and the finger inside it.
/// No bytes are held here; the arena accounts for addresses, and the values
/// that the typed layers place at those addresses live in their handles.
#[derive(Clone, Copy, Debug)]
struct Chunk {
    base: usize,
    capacity: usize,
    finger: usize,
}

impl View for Chunk {
    type V = ChunkModel;

    closed spec fn view(&self) -> ChunkModel {
        ChunkModel { base: self.base as int, capacity: self.capacity as int, finger: self.finger as int }
    }
}

/// Low-level bump allocator: a chain of chunks, the index just past the
/// current one, and the frontier for fresh backing ranges.
#[derive(Debug)]
pub struct RawArena {
    chunks: Vec<Chunk>,
    current: usize,
    next_base: usize,
}

impl View for RawArena {
    type V = ArenaModel;

    closed spec fn view(&self) -> ArenaModel {
        ArenaModel {
            chunks: Seq::new(self.chunks@.len() as nat, |i: int| self.chunks@[i]@),
            current: self.current as int,
            next_base: self.next_base as int,
        }
    }
}

impl RawArena {
    /// Creates an arena with no chunks.
    pub fn new() -> (r: Self)
        ensures
            r@ == ArenaModel::empty(),
            r@.wf(),
    {
        let r = RawArena { chunks: Vec::new(), current: 0, next_base: BASE_ORIGIN };
        proof {
            assert(r@.chunks =~= ArenaModel::empty().chunks);
        }
        r
    }

    /// Creates an arena holding one chunk of at least `capacity` content
    /// bytes, or no chunk at all for a zero capacity.
    pub fn with_capacity(capacity: usize) -> (r: Self)
        requires
            capacity <= usize::MAX - 31,
        ensures
            r@ == ArenaModel::initial(capacity as int),
            r@.wf(),
    {
        let mut arena = RawArena::new();
        if capacity > 0 {
            proof {
                lemma_grow(ArenaModel::empty(), 0, capacity as int);
            }
            let ok = arena.grow_chunk(0, capacity);
            proof {
                assert(ok);
            }
        }
        arena
    }

    /// Acquires a chunk with room for `request` content bytes: adopts or
    /// regrows the retained next chunk, or links a new one at the tail.
    /// Returns false, changing nothing, when the address space is exhausted.
    fn grow_chunk(&mut self, request: usize, default_capacity: usize) -> (ok: bool)
        requires
            old(self)@.wf(),
            default_capacity > 0,
        ensures
            ok == (old(self)@.grow(request as int, default_capacity as int) is Some),
            ok ==> final(self)@ == old(self)@.grow(
                request as int,
                default_capacity as int,
            )->Some_0,
            !ok ==> final(self)@ == old(self)@,
    {
        proof {
            lemma_grow(old(self)@, request as int, default_capacity as int);
        }
        let ghost g_opt = old(self)@.grow(request as int, default_capacity as int);
        if self.current < self.chunks.len() {
            let next = self.chunks[self.current];
            proof {
                assert(old(self)@.chunks[self.current as int].wf(old(self)@.next_base));
            }
            if request <= next.capacity {
                self.chunks.set(self.current, Chunk { finger: next.base + next.capacity, ..next });
                self.current = self.current + 1;
                proof {
                    assert(self@.chunks =~= g_opt->Some_0.chunks);
                }
                true
            } else {
                if request > usize::MAX - 15 {
                    return false;
                }
                let cap = (request + 15) / 16 * 16;
                proof {
                    vstd::arithmetic::div_mod::lemma_fundamental_div_mod(request as int + 15, 16);
                    assert(cap == align_up(request as int, CHUNK_ALIGNMENT as int));
                    lemma_align_down(request as int + 15, CHUNK_ALIGNMENT as int);
                }
                if cap > usize::MAX - self.next_base {
                    return false;
                }
                let base = self.next_base;
                self.chunks.set(self.current, Chunk { base, capacity: cap, finger: base + cap });
                self.next_base = base + cap;
                self.current = self.current + 1;
                proof {
                    assert(self@.chunks =~= g_opt->Some_0.chunks);
                }
                true
            }
        } else {
            let doubled = if self.current > 0 {
                proof {
                    assert(old(self)@.chunks[self.current as int - 1].wf(old(self)@.next_base));
                }
                let pc = self.chunks[self.current - 1].capacity;
                if pc > usize::MAX / 2 {
                    usize::MAX
                } else {
                    2 * pc
                }
            } else {
                default_capacity
            };
            let want = if doubled > request {
                doubled
            } else {
                request
            };
            if want > usize::MAX - 15 {
                return false;
            }
            let cap = (want + 15) / 16 * 16;
            proof {
                vstd::arithmetic::div_mod::lemma_fundamental_div_mod(want as int + 15, 16);
                assert(cap == align_up(want as int, CHUNK_ALIGNMENT as int));
                lemma_align_down(want as int + 15, CHUNK_ALIGNMENT as int);
            }
            if cap > usize::MAX - self.next_base {
                return false;
            }
            let base = self.next_base;
            self.chunks.push(Chunk { base, capacity: cap, finger: base + cap });
            self.next_base = base + cap;
            self.current = self.chunks.len();
            proof {
                assert(self@.chunks =~= g_opt->Some_0.chunks);
            }
            true
        }
    }

    /// Allocates `layout.size` bytes at `layout.align` alignment, bumping the
    /// current chunk's finger downward or acquiring a chunk first, and
    /// returns the address.  The contract pins the result and the new state
    /// to [`ArenaModel::spec_alloc`]; [`lemma_spec_alloc`] gives alignment,
    /// freshness and liveness of the returned range.
    pub fn alloc_with_layout(&mut self, layout: Layout) -> (r: usize)
        requires
            old(self)@.wf(),
            layout.wf(),
            layout.align <= CHUNK_ALIGNMENT,
            old(self)@.can_alloc(layout.size as int, layout.align as int),
        ensures
            final(self)@ == old(self)@.spec_alloc(layout.size as int, layout.align as int).0,
            old(self)@.spec_alloc(layout.size as int, layout.align as int).1 == Some(r as int),
            final(self)@.wf(),
            final(self)@.extends(old(self)@),
            r as int % layout.align as int == 0,
    {
        proof {
            lemma_spec_alloc(old(self)@, layout.size as int, layout.align as int);
        }
        let ghost m = old(self)@;
        let ghost size = layout.size as int;
        let ghost align = layout.align as int;
        if self.current > 0 {
            let c = self.chunks[self.current - 1];
            proof {
                assert(m.chunks[self.current as int - 1].wf(m.next_base));
            }
            if c.finger - c.base >= layout.size {
                let f1 = c.finger - layout.size;
                let f2 = f1 - f1 % layout.align;
                if f2 >= c.base {
                    proof {
                        assert(f2 == align_down(c@.finger - size, align));
                        assert(m.cur().fits(size, align));
                    }
                    if layout.size > 0 {
                        self.chunks.set(self.current - 1, Chunk { finger: f2, ..c });
                    }
                    proof {
                        assert(self@.chunks =~= m.spec_alloc(size, align).0.chunks);
                    }
                    return f2;
                }
            }
            proof {
                lemma_align_down(c@.finger - size, align);
                assert(!m.cur().fits(size, align));
            }
        }
        let ok = self.grow_chunk(layout.size, DEFAULT_CAPACITY);
        proof {
            assert(ok);
            lemma_grow(m, size, DEFAULT_CAPACITY as int);
        }
        let ghost grown = m.grow(size, DEFAULT_CAPACITY as int)->Some_0;
        let c = self.chunks[self.current - 1];
        proof {
            assert(grown.cur().fits(size, align));
            assert(c@ == grown.cur());
            lemma_align_down(c@.finger - size, align);
        }
        let f1 = c.finger - layout.size;
        let f2 = f1 - f1 % layout.align;
        if layout.size > 0 {
            self.chunks.set(self.current - 1, Chunk { finger: f2, ..c });
        }
        proof {
            assert(self@.chunks =~= m.spec_alloc(size, align).0.chunks);
        }
        f2
    }

    /// Shrinks or grows the object most recently allocated from the current
    /// chunk.  Returns the address of the reallocated object and, when the
    /// old bytes were given up (a shrink, or a displacement to a fresh
    /// allocation), the old address, now dead.  A pointer that is not the
    /// topmost allocation falls through to a fresh allocation; the old
    /// address must then be treated as freed.
    pub fn realloc(&mut self, pointer: usize, layout: Layout, new_size: usize) -> (r: (
        usize,
        Option<usize>,
    ))
        requires
            old(self)@.wf(),
            layout.wf(),
            layout.align <= CHUNK_ALIGNMENT,
            new_size + layout.align <= usize::MAX,
            old(self)@.realloc_ok(
                pointer as int,
                layout.size as int,
                layout.align as int,
                new_size as int,
            ),
        ensures
            ({
                let (m2, np, freed) = old(self)@.spec_realloc(
                    pointer as int,
                    layout.size as int,
                    layout.align as int,
                    new_size as int,
                );
                &&& final(self)@ == m2
                &&& r.0 == np
                &&& (match (r.1, freed) {
                    (Some(a), Some(b)) => a == b,
                    (None, None) => true,
                    _ => false,
                })
            }),
            final(self)@.wf(),
            final(self)@.extends(old(self)@),
    {
        proof {
            lemma_spec_realloc(
                old(self)@,
                pointer as int,
                layout.size as int,
                layout.align as int,
                new_size as int,
            );
        }
        let ghost m = old(self)@;
        let ghost gsize = layout.size as int;
        let ghost galign = layout.align as int;
        let align = layout.align;
        if self.current > 0 && layout.size != 0 {
            let c = self.chunks[self.current - 1];
            proof {
                assert(m.chunks[self.current as int - 1].wf(m.next_base));
                vstd::arithmetic::div_mod::lemma_fundamental_div_mod(
                    layout.size as int + align as int - 1,
                    align as int,
                );
                vstd::arithmetic::mul::lemma_mul_is_commutative(
                    align as int,
                    (layout.size as int + align as int - 1) / align as int,
                );
                vstd::arithmetic::div_mod::lemma_fundamental_div_mod(
                    new_size as int + align as int - 1,
                    align as int,
                );
                vstd::arithmetic::mul::lemma_mul_is_commutative(
                    align as int,
                    (new_size as int + align as int - 1) / align as int,
                );
                lemma_align_down(layout.size as int + align as int - 1, align as int);
                lemma_align_down(new_size as int + align as int - 1, align as int);
            }
            if c.finger == pointer && pointer % align == 0 {
                let old_p = (layout.size + (align - 1)) / align * align;
                proof {
                    assert(old_p == align_up(gsize, galign));
                }
                if old_p <= (c.base + c.capacity) - pointer {
                    proof {
                        assert(m.fast_realloc_applies(pointer as int, gsize, galign));
                    }
                    let new_p = (new_size + (align - 1)) / align * align;
                    proof {
                        assert(new_p == align_up(new_size as int, galign));
                    }
                    if old_p >= new_p {
                        let f = pointer + (old_p - new_p);
                        self.chunks.set(self.current - 1, Chunk { finger: f, ..c });
                        proof {
                            assert(self@.chunks =~= m.spec_realloc(
                                pointer as int,
                                gsize,
                                galign,
                                new_size as int,
                            ).0.chunks);
                        }
                        return (f, Some(pointer));
                    } else {
                        let delta = new_p - old_p;
                        if pointer - c.base >= delta {
                            let f = pointer - delta;
                            self.chunks.set(self.current - 1, Chunk { finger: f, ..c });
                            proof {
                                assert(self@.chunks =~= m.spec_realloc(
                                    pointer as int,
                                    gsize,
                                    galign,
                                    new_size as int,
                                ).0.chunks);
                            }
                            return (f, None);
                        }
                    }
                }
            }
        }
        let fresh = self.alloc_with_layout(Layout { size: new_size, align });
        (fresh, Some(pointer))
    }

    /// Allocates, hands the arena and the address to a closure, and frees the
    /// allocation again when the closure reports failure — provided the
    /// closure left the arena where the allocation put it, since rewinding
    /// past the closure's own allocations would strand them.  The closure
    /// receives the arena by value and must give it back; its contract has to
    /// state that the arena it returns extends the one it got.
    pub fn alloc_try_with_layout<R: Try, F: FnOnce(RawArena, usize) -> (RawArena, R)>(
        &mut self,
        layout: Layout,
        f: F,
    ) -> (r: R)
        requires
            old(self)@.wf(),
            layout.wf(),
            layout.align <= CHUNK_ALIGNMENT,
            old(self)@.can_alloc(layout.size as int, layout.align as int),
            forall|a: RawArena, p: usize|
                a@ == old(self)@.spec_alloc(layout.size as int, layout.align as int).0 && p as int
                    == old(self)@.spec_alloc(
                    layout.size as int,
                    layout.align as int,
                ).1->Some_0 ==> #[trigger] call_requires(f, (a, p)),
            forall|a: RawArena, p: usize, out: (RawArena, R)|
                #[trigger] call_ensures(f, (a, p), out) ==> out.0@.extends(a@),
        ensures
            final(self)@.wf(),
            final(self)@.extends(old(self)@),
            exists|a1: RawArena, a2: RawArena|
                {
                    &&& a1@ == old(self)@.spec_alloc(layout.size as int, layout.align as int).0
                    &&& #[trigger] call_ensures(
                        f,
                        (
                            a1,
                            (old(self)@.spec_alloc(
                                layout.size as int,
                                layout.align as int,
                            ).1->Some_0) as usize,
                        ),
                        (a2, r),
                    )
                    &&& (if !r.spec_is_success() && a2@.state() == a1@.state() {
                        &&& (old(self)@.current > 0 ==> final(self)@.pos_eq(old(self)@)
                            && final(self)@.state() == old(self)@.state())
                        &&& (old(self)@.current == 0 ==> (forall|b: int| !final(self)@.live(b)))
                    } else {
                        final(self)@ == a2@
                    })
                },
    {
        let mut work = RawArena::new();
        core::mem::swap(self, &mut work);
        let ghost m = old(self)@;
        let ghost gsize = layout.size as int;
        let ghost galign = layout.align as int;
        let rewind_state = work.current_state();
        let allocation = work.alloc_with_layout(layout);
        let success_state = work.current_state();
        let ghost a1 = work;
        let (mut work2, result) = f(work, allocation);
        let ghost a2 = work2;
        proof {
            assert(a2@.extends(a1@));
            lemma_extends_trans(m, a1@, a2@);
        }
        if !result.is_success() && states_equal(&work2.current_state(), &success_state) {
            proof {
                lemma_restore_exact(m, a2@);
            }
            work2.restore_state(rewind_state);
        }
        core::mem::swap(self, &mut work2);
        proof {
            let p = (m.spec_alloc(gsize, galign).1->Some_0) as usize;
            assert(allocation == p);
            assert(call_ensures(f, (a1, p), (a2, result)));
        }
        result
    }

    /// The snapshot of where the arena stands: its current chunk and finger.
    pub fn current_state(&self) -> (r: Option<RawArenaState>)
        requires
            self@.wf(),
        ensures
            r == self@.state(),
    {
        if self.current == 0 {
            None
        } else {
            Some(
                RawArenaState {
                    chunk: self.current - 1,
                    finger: self.chunks[self.current - 1].finger,
                },
            )
        }
    }

    /// Restores an earlier snapshot, freeing in bulk everything allocated
    /// after it was taken.  Snapshots must be restored in reverse of the
    /// order in which they were taken; the [`ArenaModel::extends`] relation,
    /// which every allocating operation keeps, makes any snapshot taken
    /// earlier on this arena valid here.
    pub fn restore_state(&mut self, state: Option<RawArenaState>)
        requires
            old(self)@.wf(),
            old(self)@.state_valid(state),
        ensures
            final(self)@ == old(self)@.restore(state),
            final(self)@.wf(),
    {
        match state {
            Some(st) => {
                let c = self.chunks[st.chunk];
                self.chunks.set(st.chunk, Chunk { finger: st.finger, ..c });
                self.current = st.chunk + 1;
                proof {
                    let m = old(self)@;
                    let r = m.restore(state);
                    assert(final(self)@.chunks =~= r.chunks);
                    assert forall|i: int| 0 <= i < r.chunks.len() implies (#[trigger] r.chunks[i]).wf(
                        r.next_base,
                    ) by {
                        assert(m.chunks[i].wf(m.next_base));
                    }
                    assert forall|i: int, j: int| 0 <= i < j < r.chunks.len() implies chunks_disjoint(
                        r.chunks[i],
                        r.chunks[j],
                    ) by {
                        assert(chunks_disjoint(m.chunks[i], m.chunks[j]));
                    }
                }
            },
            None => {
                self.reset();
            },
        }
    }

    /// Empties every active chunk, leaving the current chunk current with its
    /// finger back at its end.  All chunk memory is retained for reuse, and
    /// the next allocation bumps into the current chunk again.
    pub fn reset(&mut self)
        requires
            old(self)@.wf(),
        ensures
            final(self)@ == old(self)@.reset(),
            final(self)@.wf(),
    {
        let mut i: usize = 0;
        while i < self.current
            invariant
                old(self)@.wf(),
                i <= old(self)@.current,
                self.current == old(self).current,
                self.next_base == old(self).next_base,
                self@.chunks.len() == old(self)@.chunks.len(),
                forall|j: int|
                    0 <= j < i ==> self@.chunks[j] == old(self)@.chunks[j].reset(),
                forall|j: int|
                    i <= j < self@.chunks.len() ==> self@.chunks[j] == old(self)@.chunks[j],
            decreases self.current - i,
        {
            proof {
                assert(old(self)@.chunks[i as int].wf(old(self)@.next_base));
            }
            let ghost prev = self@.chunks;
            let c = self.chunks[i];
            self.chunks.set(i, Chunk { finger: c.base + c.capacity, ..c });
            i = i + 1;
            proof {
                assert forall|j: int| 0 <= j < i implies self@.chunks[j] == old(
                    self,
                )@.chunks[j].reset() by {
                    if j + 1 < i {
                        assert(self@.chunks[j] == prev[j]);
                        assert(prev[j] == old(self)@.chunks[j].reset());
                    } else {
                        assert(self@.chunks[j] == old(self)@.chunks[j].reset());
                    }
                }
            }
        }
        proof {
            let m = old(self)@;
            let r = m.reset();
            assert(final(self)@.chunks =~= r.chunks);
            assert forall|ii: int| 0 <= ii < r.chunks.len() implies (#[trigger] r.chunks[ii]).wf(
                r.next_base,
            ) by {
                assert(m.chunks[ii].wf(m.next_base));
            }
            assert forall|ii: int, jj: int| 0 <= ii < jj < r.chunks.len() implies chunks_disjoint(
                r.chunks[ii],
                r.chunks[jj],
            ) by {
                assert(chunks_disjoint(m.chunks[ii], m.chunks[jj]));
            }
        }
    }
}

/// Compares two snapshots.
pub fn states_equal(a: &Option<RawArenaState>, b: &Option<RawArenaState>) -> (r: bool)
    ensures
        r == (a == b),
{
    match (a, b) {
        (None, None) => true,
        (Some(x), Some(y)) => x.chunk == y.chunk && x.finger == y.finger,
        _ => false,
    }
}

impl Default for RawArena {
    /// An arena with no chunks.
    fn default() -> (r: Self)
        ensures
            r@ == ArenaModel::empty(),
            r@.wf(),
    {
        Self::new()
    }
}

} // verus!

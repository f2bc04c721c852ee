//! Blocks — the unit of rendering work — and the manager that owns the
//! full block set, hands blocks out under a concurrency ceiling, and
//! takes them back.

use vstd::prelude::*;

verus! {

use crate::color::Color;
use crate::geometry::{Rect, rect_width, rect_height, decompose, decompose_spec};

/// Width in pixels of a full (unclipped) tile.
pub const BLOCK_WIDTH: u32 = 32;

/// Height in pixels of a full (unclipped) tile.
pub const BLOCK_HEIGHT: u32 = 32;

/// One tile of the image: a stable identity, the rectangle it covers, a
/// flat row-major pixel buffer, and a counter of how many times it has
/// been filled.
#[derive(Clone)]
pub struct Block {
    pub id: usize,
    pub rect: Rect,
    pub pixels: Vec<Color>,
    pub iteration: u64,
}

impl Block {
    /// The pixel buffer covers the rectangle exactly.
    pub open spec fn wf(self) -> bool {
        &&& self.rect.wf()
        &&& self.pixels@.len() == self.rect.spec_width() * self.rect.spec_height()
    }

    /// Allocates a block for the given rectangle with every pixel at the
    /// default (black) sample and the fill counter at zero.
    pub fn new(rect: &Rect) -> (b: Block)
        requires
            rect.wf(),
            rect.spec_width() * rect.spec_height() <= usize::MAX,
        ensures
            b.wf(),
            b.rect == *rect,
            b.id == 0,
            b.iteration == 0,
            forall|i: int|
                0 <= i < b.pixels@.len() ==> b.pixels@[i] == (Color { x: 0, y: 0, z: 0 }),
    {
        let w = rect_width(rect);
        let h = rect_height(rect);
        proof {
            assert((w as u64) * (h as u64) == rect.spec_width() * rect.spec_height())
                by (nonlinear_arith)
                requires
                    w == rect.spec_width(),
                    h == rect.spec_height(),
            ;
        }
        let n64: u64 = (w as u64) * (h as u64);
        let n: usize = n64 as usize;
        let mut pixels: Vec<Color> = Vec::new();
        let mut i: usize = 0;
        while i < n
            invariant
                i <= n,
                pixels@.len() == i,
                forall|j: int|
                    0 <= j < pixels@.len() ==> pixels@[j] == (Color { x: 0, y: 0, z: 0 }),
            decreases n - i,
        {
            pixels.push(Color::default());
            i = i + 1;
        }
        Block { id: 0, rect: *rect, pixels, iteration: 0 }
    }
}

/// What one fill pass does to a block: same identity, same rectangle,
/// same buffer size, and the fill counter advanced by exactly one; only
/// the pixel values differ.
pub open spec fn filled_from(before: Block, after: Block) -> bool {
    &&& after.id == before.id
    &&& after.rect == before.rect
    &&& after.pixels@.len() == before.pixels@.len()
    &&& after.iteration == before.iteration + 1
}

/// Relies on `num_cpus::get`: the number of logical CPUs available to
/// the process; its documentation promises at least one.
#[verifier::external_body]
fn hardware_parallelism() -> (n: usize)
    ensures
        n >= 1,
{
    num_cpus::get()
}

/// Owns the full set of blocks of one image, split between a free pool
/// and the identities currently checked out, and enforces the
/// concurrency ceiling on checkouts.
pub struct BlockManager {
    pub blocks: Vec<Block>,
    pub active_blocks: Vec<usize>,
    pub max_blocks: usize,
}

impl BlockManager {
    /// The identities of the blocks waiting in the free pool.
    pub open spec fn free_ids(self) -> Seq<usize> {
        self.blocks@.map_values(|b: Block| b.id)
    }

    /// How many blocks exist in this session.
    pub open spec fn total(self) -> int {
        self.blocks@.len() + self.active_blocks@.len() as int
    }

    /// The full block set: every identity the decomposition created.
    pub open spec fn id_universe(self) -> Set<usize> {
        Set::new(|i: usize| i < self.total())
    }

    /// Bookkeeping invariant: no more than `max_blocks` blocks are
    /// checked out, identities repeat nowhere, every block is either
    /// free or active — never both, never neither — and every pooled
    /// block is well formed.
    pub open spec fn wf(self) -> bool {
        &&& self.active_blocks@.len() <= self.max_blocks
        &&& self.free_ids().no_duplicates()
        &&& self.active_blocks@.no_duplicates()
        &&& self.free_ids().to_set().disjoint(self.active_blocks@.to_set())
        &&& self.free_ids().to_set().union(self.active_blocks@.to_set()) == self.id_universe()
        &&& (forall|i: int| 0 <= i < self.blocks@.len() ==> (#[trigger] self.blocks@[i]).wf())
    }

    /// Whether a checkout can succeed: a block is free and the ceiling
    /// has not been reached.
    pub open spec fn can_dispatch(self) -> bool {
        self.blocks@.len() > 0 && self.active_blocks@.len() < self.max_blocks
    }

    fn make_blocks(width: u32, height: u32) -> (v: Vec<Block>)
        ensures
            v@.len() == decompose_spec(width, height, BLOCK_WIDTH, BLOCK_HEIGHT).len(),
            forall|i: int|
                0 <= i < v@.len() ==> {
                    let b = #[trigger] v@[i];
                    b.wf() && b.id == i && b.iteration == 0 && b.rect == decompose_spec(
                        width,
                        height,
                        BLOCK_WIDTH,
                        BLOCK_HEIGHT,
                    )[i] && (forall|j: int|
                        0 <= j < b.pixels@.len() ==> b.pixels@[j] == (Color { x: 0, y: 0, z: 0 }))
                },
    {
        let rects = decompose(width, height, BLOCK_WIDTH, BLOCK_HEIGHT);
        let mut v: Vec<Block> = Vec::new();
        let mut i: usize = 0;
        while i < rects.len()
            invariant
                rects@ == decompose_spec(width, height, BLOCK_WIDTH, BLOCK_HEIGHT),
                i <= rects@.len(),
                v@.len() == i,
                forall|k: int|
                    0 <= k < v@.len() ==> {
                        let b = #[trigger] v@[k];
                        b.wf() && b.id == k && b.iteration == 0 && b.rect == decompose_spec(
                            width,
                            height,
                            BLOCK_WIDTH,
                            BLOCK_HEIGHT,
                        )[k] && (forall|j: int|
                            0 <= j < b.pixels@.len() ==> b.pixels@[j] == (Color {
                                x: 0,
                                y: 0,
                                z: 0,
                            }))
                    },
            decreases rects@.len() - i,
        {
            proof {
                crate::geometry::lemma_decompose_in_bounds(
                    width,
                    height,
                    BLOCK_WIDTH,
                    BLOCK_HEIGHT,
                    i as int,
                );
                let r = rects@[i as int];
                assert(r.spec_width() * r.spec_height() <= BLOCK_WIDTH * BLOCK_HEIGHT)
                    by (nonlinear_arith)
                    requires
                        0 <= r.spec_width() <= BLOCK_WIDTH,
                        0 <= r.spec_height() <= BLOCK_HEIGHT,
                ;
            }
            let mut b = Block::new(&rects[i]);
            b.id = i;
            v.push(b);
            i = i + 1;
        }
        v
    }

    /// Builds the block set for a `width x height` image with the given
    /// concurrency ceiling; every block starts in the free pool.
    pub fn with_max_concurrency(width: u32, height: u32, max_concurrency: usize) -> (m:
        BlockManager)
        ensures
            m.wf(),
            m.max_blocks == max_concurrency,
            m.active_blocks@.len() == 0,
            m.blocks@.len() == decompose_spec(width, height, BLOCK_WIDTH, BLOCK_HEIGHT).len(),
            forall|i: int|
                0 <= i < m.blocks@.len() ==> {
                    let b = #[trigger] m.blocks@[i];
                    b.wf() && b.id == i && b.iteration == 0 && b.rect == decompose_spec(
                        width,
                        height,
                        BLOCK_WIDTH,
                        BLOCK_HEIGHT,
                    )[i] && (forall|j: int|
                        0 <= j < b.pixels@.len() ==> b.pixels@[j] == (Color { x: 0, y: 0, z: 0 }))
                },
    {
        let blocks = Self::make_blocks(width, height);
        let m = BlockManager { blocks, active_blocks: Vec::new(), max_blocks: max_concurrency };
        proof {
            let ids = m.free_ids();
            let n = m.blocks@.len() as int;
            assert forall|i: int, j: int|
                0 <= i < ids.len() && 0 <= j < ids.len() && i != j implies ids[i] != ids[j] by {
                assert(ids[i] == i && ids[j] == j);
            }
            assert(ids.no_duplicates());
            assert(m.active_blocks@.to_set() =~= Set::<usize>::empty());
            assert forall|x: usize| m.id_universe().contains(x) implies ids.to_set().contains(
                x,
            ) by {
                assert(ids[x as int] == x);
                assert(ids.contains(x));
            }
            assert(ids.to_set().union(m.active_blocks@.to_set()) =~= m.id_universe());
            assert(ids.to_set().disjoint(m.active_blocks@.to_set()));
        }
        m
    }

    /// Builds the block set for a `width x height` image; the
    /// concurrency ceiling defaults to the host's hardware parallelism.
    pub fn new(width: u32, height: u32) -> (m: BlockManager)
        ensures
            m.wf(),
            m.max_blocks >= 1,
            m.active_blocks@.len() == 0,
            m.blocks@.len() == decompose_spec(width, height, BLOCK_WIDTH, BLOCK_HEIGHT).len(),
            forall|i: int|
                0 <= i < m.blocks@.len() ==> {
                    let b = #[trigger] m.blocks@[i];
                    b.wf() && b.id == i && b.iteration == 0 && b.rect == decompose_spec(
                        width,
                        height,
                        BLOCK_WIDTH,
                        BLOCK_HEIGHT,
                    )[i] && (forall|j: int|
                        0 <= j < b.pixels@.len() ==> b.pixels@[j] == (Color { x: 0, y: 0, z: 0 }))
                },
    {
        let max = hardware_parallelism();
        Self::with_max_concurrency(width, height, max)
    }

    /// Admission control: checks one block out of the free pool, unless
    /// the pool is empty or `max_blocks` blocks are already out.
    pub fn next_block(&mut self) -> (r: Option<Block>)
        requires
            old(self).wf(),
        ensures
            final(self).wf(),
            final(self).max_blocks == old(self).max_blocks,
            final(self).total() == old(self).total(),
            r is None <==> !old(self).can_dispatch(),
            r is None ==> *final(self) == *old(self),
            r is Some ==> {
                let b = r.unwrap();
                &&& b == old(self).blocks@.last()
                &&& b.wf()
                &&& final(self).blocks@ == old(self).blocks@.drop_last()
                &&& final(self).active_blocks@ == old(self).active_blocks@.push(b.id)
                &&& final(self).active_blocks@.contains(b.id)
            },
    {
        if self.blocks.len() == 0 || self.active_blocks.len() >= self.max_blocks {
            return None;
        }
        let ghost pre = *self;
        let b = self.blocks.pop().unwrap();
        self.active_blocks.push(b.id);
        proof {
            let id = b.id;
            assert(pre.free_ids().last() == id);
            assert(pre.free_ids().to_set().contains(id)) by {
                assert(pre.free_ids().contains(id));
            }
            assert(!pre.active_blocks@.to_set().contains(id));
            assert(!pre.active_blocks@.contains(id));
            lemma_drop_last_to_set(pre.free_ids());
            assert(self.free_ids() =~= pre.free_ids().drop_last());
            pre.active_blocks@.lemma_push_to_set_commute(id);
            assert forall|i: int, j: int|
                0 <= i < self.active_blocks@.len() && 0 <= j < self.active_blocks@.len() && i
                    != j implies self.active_blocks@[i] != self.active_blocks@[j] by {
                if i < pre.active_blocks@.len() && j < pre.active_blocks@.len() {
                } else if i < pre.active_blocks@.len() {
                    assert(self.active_blocks@[j] == id);
                    assert(pre.active_blocks@.contains(pre.active_blocks@[i]));
                } else {
                    assert(self.active_blocks@[i] == id);
                    assert(pre.active_blocks@.contains(pre.active_blocks@[j]));
                }
            }
            assert(self.active_blocks@.no_duplicates());
            assert(self.total() == pre.total());
            assert(self.id_universe() =~= pre.id_universe());
            assert(self.free_ids().to_set() == pre.free_ids().to_set().remove(id));
            assert(self.active_blocks@.to_set() == pre.active_blocks@.to_set().insert(id));
            assert forall|x: usize|
                self.id_universe().contains(x) implies self.free_ids().to_set().union(
                self.active_blocks@.to_set(),
            ).contains(x) by {
                assert(pre.free_ids().to_set().union(pre.active_blocks@.to_set()).contains(x));
            }
            assert forall|x: usize|
                self.free_ids().to_set().union(self.active_blocks@.to_set()).contains(
                x,
            ) implies self.id_universe().contains(x) by {
                if x == id {
                    assert(pre.free_ids().to_set().contains(x));
                }
                assert(pre.free_ids().to_set().union(pre.active_blocks@.to_set()).contains(x));
            }
            assert(self.free_ids().to_set().union(self.active_blocks@.to_set())
                =~= self.id_universe());
            assert(self.free_ids().to_set().disjoint(self.active_blocks@.to_set()));
            assert(self.active_blocks@.contains(id)) by {
                assert(self.active_blocks@.last() == id);
            }
        }
        Some(b)
    }

    /// Puts a checked-out block back into the free pool. Returning a
    /// block that is not currently checked out is a caller defect and
    /// is excluded by contract.
    pub fn return_block(&mut self, block: Block)
        requires
            old(self).wf(),
            block.wf(),
            old(self).active_blocks@.contains(block.id),
        ensures
            final(self).wf(),
            final(self).max_blocks == old(self).max_blocks,
            final(self).total() == old(self).total(),
            final(self).blocks@ == old(self).blocks@.push(block),
            final(self).active_blocks@.len() == old(self).active_blocks@.len() - 1,
            final(self).active_blocks@.to_set() == old(self).active_blocks@.to_set().remove(
                block.id,
            ),
            final(self).can_dispatch(),
    {
        let ghost pre = *self;
        let id = block.id;
        proof {
            assert(pre.active_blocks@.to_set().contains(id));
            assert(!pre.free_ids().to_set().contains(id));
            assert(!pre.free_ids().contains(id));
        }
        self.blocks.push(block);
        let mut i: usize = 0;
        while i < self.active_blocks.len() && self.active_blocks[i] != id
            invariant
                self.active_blocks@ == pre.active_blocks@,
                0 <= i <= self.active_blocks@.len(),
                pre.active_blocks@.contains(id),
                forall|j: int| 0 <= j < i ==> self.active_blocks@[j] != id,
            decreases self.active_blocks@.len() - i,
        {
            i = i + 1;
        }
        proof {
            let witness = choose|j: int|
                0 <= j < pre.active_blocks@.len() && pre.active_blocks@[j] == id;
            assert(i < pre.active_blocks@.len());
            assert(self.active_blocks@[i as int] == id);
        }
        self.active_blocks.remove(i);
        proof {
            lemma_remove_to_set(pre.active_blocks@, i as int);
            assert(self.free_ids() =~= pre.free_ids().push(id));
            pre.free_ids().lemma_push_to_set_commute(id);
            assert forall|k: int, l: int|
                0 <= k < self.free_ids().len() && 0 <= l < self.free_ids().len() && k
                    != l implies self.free_ids()[k] != self.free_ids()[l] by {
                if k < pre.free_ids().len() && l < pre.free_ids().len() {
                } else if k < pre.free_ids().len() {
                    assert(pre.free_ids().contains(pre.free_ids()[k]));
                } else {
                    assert(pre.free_ids().contains(pre.free_ids()[l]));
                }
            }
            assert(self.free_ids().no_duplicates());
            assert(self.total() == pre.total());
            assert(self.id_universe() =~= pre.id_universe());
            assert(self.free_ids().to_set() == pre.free_ids().to_set().insert(id));
            assert(self.active_blocks@.to_set() == pre.active_blocks@.to_set().remove(id));
            assert forall|x: usize|
                self.id_universe().contains(x) implies self.free_ids().to_set().union(
                self.active_blocks@.to_set(),
            ).contains(x) by {
                assert(pre.free_ids().to_set().union(pre.active_blocks@.to_set()).contains(x));
            }
            assert forall|x: usize|
                self.free_ids().to_set().union(self.active_blocks@.to_set()).contains(
                x,
            ) implies self.id_universe().contains(x) by {
                if x == id {
                    assert(pre.active_blocks@.to_set().contains(x));
                }
                assert(pre.free_ids().to_set().union(pre.active_blocks@.to_set()).contains(x));
            }
            assert(self.free_ids().to_set().union(self.active_blocks@.to_set())
                =~= self.id_universe());
            assert(self.free_ids().to_set().disjoint(self.active_blocks@.to_set()));
        }
    }
}

/// Dropping the last element of a duplicate-free sequence removes
/// exactly that element from its set of values.
proof fn lemma_drop_last_to_set(s: Seq<usize>)
    requires
        s.no_duplicates(),
        s.len() > 0,
    ensures
        s.drop_last().to_set() =~= s.to_set().remove(s.last()),
        s.drop_last().no_duplicates(),
{
    assert forall|x: usize| s.drop_last().to_set().contains(x) implies s.to_set().remove(
        s.last(),
    ).contains(x) by {
        let j = choose|j: int| 0 <= j < s.drop_last().len() && s.drop_last()[j] == x;
        assert(s[j] == x);
        assert(s.contains(x));
        assert(x != s.last());
    }
    assert forall|x: usize| s.to_set().remove(s.last()).contains(x) implies s.drop_last()
        .to_set().contains(x) by {
        let j = choose|j: int| 0 <= j < s.len() && s[j] == x;
        assert(j < s.len() - 1);
        assert(s.drop_last()[j] == x);
        assert(s.drop_last().contains(x));
    }
}

/// Removing one position of a duplicate-free sequence removes exactly
/// that value from its set of values.
proof fn lemma_remove_to_set(s: Seq<usize>, i: int)
    requires
        s.no_duplicates(),
        0 <= i < s.len(),
    ensures
        s.remove(i).to_set() =~= s.to_set().remove(s[i]),
        s.remove(i).no_duplicates(),
{
    let t = s.remove(i);
    assert forall|x: usize| t.to_set().contains(x) implies s.to_set().remove(s[i]).contains(
        x,
    ) by {
        let j = choose|j: int| 0 <= j < t.len() && t[j] == x;
        if j < i {
            assert(s[j] == x);
        } else {
            assert(s[j + 1] == x);
        }
        assert(s.contains(x));
        assert(x != s[i]);
    }
    assert forall|x: usize| s.to_set().remove(s[i]).contains(x) implies t.to_set().contains(
        x,
    ) by {
        let j = choose|j: int| 0 <= j < s.len() && s[j] == x;
        if j < i {
            assert(t[j] == x);
        } else {
            assert(j > i);
            assert(t[j - 1] == x);
        }
        assert(t.contains(x));
    }
    assert forall|k: int, l: int| 0 <= k < t.len() && 0 <= l < t.len() && k != l implies t[k]
        != t[l] by {
        let sk = if k < i { k } else { k + 1 };
        let sl = if l < i { l } else { l + 1 };
        assert(t[k] == s[sk] && t[l] == s[sl]);
    }
}

/// The admission law: a checkout fails exactly while the free pool is
/// empty or `max_blocks` blocks are out — and returning any checked-out
/// block immediately re-enables dispatch.
///
/// The premises on `m2` are what `return_block` guarantees when the
/// block `b` is returned to `m`.
pub proof fn lemma_admission(m: BlockManager, m2: BlockManager, b: Block)
    requires
        m.wf(),
        m.active_blocks@.contains(b.id),
        m2.blocks@ == m.blocks@.push(b),
        m2.active_blocks@.len() == m.active_blocks@.len() - 1,
        m2.max_blocks == m.max_blocks,
    ensures
        m.active_blocks@.len() >= m.max_blocks ==> !m.can_dispatch(),
        m2.can_dispatch(),
{
}

/// The partition law: the free pool and the active set are disjoint,
/// together they are exactly the block set created at decomposition
/// time, and never more than `max_blocks` blocks are active.
pub proof fn lemma_block_partition(m: BlockManager)
    requires
        m.wf(),
    ensures
        m.active_blocks@.len() <= m.max_blocks,
        m.free_ids().to_set().disjoint(m.active_blocks@.to_set()),
        m.free_ids().to_set().union(m.active_blocks@.to_set()) == m.id_universe(),
{
}

} // verus!

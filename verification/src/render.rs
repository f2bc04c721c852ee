//! The renderer: two bounded queues — submitted blocks in, completed
//! blocks out — a cooperative stop flag, and the fill pass that moves
//! blocks from one queue to the other.

use vstd::prelude::*;

verus! {

use crate::blocks::{Block, BLOCK_WIDTH, BLOCK_HEIGHT, filled_from};
use crate::channel::{BlockQueue, queue_contents, queue_capacity, queue_new, queue_push,
    queue_try_pop, queue_len};
use crate::geometry::{rect_width, rect_height, decompose_spec};
use crate::rng::{FastRepRand, color_random};

/// Executes fill work on blocks. Blocks go in through the request
/// queue, are filled one at a time, and come back out through the
/// results queue; a cooperative stop flag suppresses publication.
pub struct Renderer {
    pub request: BlockQueue,
    pub results: BlockQueue,
    pub capacity: usize,
    pub stop: bool,
    pub finished: bool,
}

impl Renderer {
    /// The blocks submitted and not yet taken by a pass, oldest first.
    pub open spec fn request_q(self) -> Seq<Block> {
        queue_contents(self.request)
    }

    /// The completed blocks not yet collected, oldest first.
    pub open spec fn results_q(self) -> Seq<Block> {
        queue_contents(self.results)
    }

    /// How many blocks are inside the renderer, over both queues.
    pub open spec fn in_flight(self) -> int {
        self.request_q().len() + self.results_q().len() as int
    }

    /// Both queues were provisioned with the same bound, the blocks
    /// inside the renderer never exceed it, and every queued block is
    /// well formed with room left on its fill counter.
    pub open spec fn wf(self) -> bool {
        &&& queue_capacity(self.request) == self.capacity
        &&& queue_capacity(self.results) == self.capacity
        &&& self.in_flight() <= self.capacity
        &&& (forall|i: int|
            0 <= i < self.request_q().len() ==> (#[trigger] self.request_q()[i]).wf()
                && self.request_q()[i].iteration < u64::MAX)
        &&& (forall|i: int|
            0 <= i < self.results_q().len() ==> (#[trigger] self.results_q()[i]).wf())
    }

    /// Creates an idle renderer for a `width x height` image, with both
    /// queues provisioned for the image's full block count. The bound on
    /// the block count is forced by the queue implementation.
    pub fn new(width: u32, height: u32) -> (r: Renderer)
        requires
            decompose_spec(width, height, BLOCK_WIDTH, BLOCK_HEIGHT).len() <= 0x3FFF_FFFF,
        ensures
            r.wf(),
            r.capacity == decompose_spec(width, height, BLOCK_WIDTH, BLOCK_HEIGHT).len(),
            r.request_q().len() == 0,
            r.results_q().len() == 0,
            r.stop == false,
            r.finished == true,
    {
        let cols64: u64 = (width as u64 + BLOCK_WIDTH as u64 - 1) / (BLOCK_WIDTH as u64);
        let rows64: u64 = (height as u64 + BLOCK_HEIGHT as u64 - 1) / (BLOCK_HEIGHT as u64);
        proof {
            assert(cols64 == crate::geometry::grid_count(width, BLOCK_WIDTH));
            assert(rows64 == crate::geometry::grid_count(height, BLOCK_HEIGHT));
            assert(rows64 * cols64 == decompose_spec(width, height, BLOCK_WIDTH,
                BLOCK_HEIGHT).len());
        }
        let count64: u64 = rows64 * cols64;
        let cap: usize = count64 as usize;
        Renderer {
            request: queue_new(cap),
            results: queue_new(cap),
            capacity: cap,
            stop: false,
            finished: true,
        }
    }

    /// Hands one block to the renderer: it joins the request queue and a
    /// new pass becomes pending — unless a stop has been requested, in
    /// which case the block is discarded and nothing changes.
    pub fn submit(&mut self, block: Block)
        requires
            old(self).wf(),
            block.wf(),
            block.iteration < u64::MAX,
            old(self).in_flight() < old(self).capacity,
        ensures
            final(self).wf(),
            final(self).capacity == old(self).capacity,
            final(self).stop == old(self).stop,
            final(self).results_q() == old(self).results_q(),
            old(self).stop ==> final(self).request_q() == old(self).request_q()
                && final(self).finished == old(self).finished,
            !old(self).stop ==> final(self).request_q() == old(self).request_q().push(block)
                && final(self).finished == false,
    {
        if self.stop {
            return ;
        }
        self.finished = false;
        queue_push(&mut self.request, block);
    }

    /// Fills every pixel of the block with a fresh pseudo-random sample
    /// and advances its fill counter: one unit of rendering work.
    pub fn render_block(&self, block: &mut Block)
        requires
            old(block).wf(),
            old(block).iteration < u64::MAX,
        ensures
            final(block).wf(),
            filled_from(*old(block), *final(block)),
    {
        let ghost pre = *old(block);
        let mut rng = FastRepRand::from_entropy();
        let block_width = rect_width(&block.rect);
        let block_height = rect_height(&block.rect);
        let n = block.pixels.len();
        proof {
            assert(n == block_width * block_height);
        }
        let mut y: u32 = 0;
        while y < block_height
            invariant
                y <= block_height,
                block.id == pre.id,
                block.rect == pre.rect,
                block.iteration == pre.iteration,
                block.pixels@.len() == pre.pixels@.len(),
                block_width == pre.rect.spec_width(),
                block_height == pre.rect.spec_height(),
                pre.pixels@.len() == block_width * block_height,
                n == block_width * block_height,
            decreases block_height - y,
        {
            let mut x: u32 = 0;
            while x < block_width
                invariant
                    y < block_height,
                    x <= block_width,
                    block.id == pre.id,
                    block.rect == pre.rect,
                    block.iteration == pre.iteration,
                    block.pixels@.len() == pre.pixels@.len(),
                    block_width == pre.rect.spec_width(),
                    block_height == pre.rect.spec_height(),
                    pre.pixels@.len() == block_width * block_height,
                    n == block_width * block_height,
                decreases block_width - x,
            {
                proof {
                    assert((y as int) * (block_width as int) + (x as int) < (block_height as int)
                        * (block_width as int)) by (nonlinear_arith)
                        requires
                            0 <= y < block_height,
                            0 <= x < block_width,
                    ;
                }
                let index: usize = (y as usize) * (block_width as usize) + (x as usize);
                let c = color_random(&mut rng);
                block.pixels.set(index, c);
                x = x + 1;
            }
            y = y + 1;
        }
        block.iteration = block.iteration + 1;
    }

    /// Runs one pass of the fill worker: drains the request queue,
    /// fills each block taken, and publishes it to the results queue —
    /// unless a stop has been requested, in which case every block
    /// taken is discarded without being published.
    pub fn render_frame(&mut self)
        requires
            old(self).wf(),
        ensures
            final(self).wf(),
            final(self).capacity == old(self).capacity,
            final(self).stop == old(self).stop,
            final(self).finished == true,
            final(self).request_q().len() == 0,
            old(self).stop ==> final(self).results_q() == old(self).results_q(),
            !old(self).stop ==> {
                &&& final(self).results_q().len() == old(self).results_q().len()
                    + old(self).request_q().len()
                &&& (forall|k: int|
                    0 <= k < old(self).results_q().len() ==> final(self).results_q()[k]
                        == old(self).results_q()[k])
                &&& (forall|k: int|
                    0 <= k < old(self).request_q().len() ==> filled_from(
                        old(self).request_q()[k],
                        final(self).results_q()[old(self).results_q().len() + k],
                    ))
            },
    {
        self.finished = false;
        let ghost orig = *old(self);
        let ghost mut done: int = 0;
        while queue_len(&self.request) > 0
            invariant
                self.capacity == orig.capacity,
                queue_capacity(self.request) == self.capacity,
                queue_capacity(self.results) == self.capacity,
                self.stop == orig.stop,
                self.finished == false,
                0 <= done <= orig.request_q().len(),
                self.request_q() == orig.request_q().skip(done),
                self.in_flight() <= self.capacity,
                forall|i: int|
                    0 <= i < orig.request_q().len() ==> (#[trigger] orig.request_q()[i]).wf()
                        && orig.request_q()[i].iteration < u64::MAX,
                forall|i: int|
                    0 <= i < self.results_q().len() ==> (#[trigger] self.results_q()[i]).wf(),
                orig.stop ==> self.results_q() == orig.results_q(),
                !orig.stop ==> {
                    &&& self.results_q().len() == orig.results_q().len() + done
                    &&& (forall|k: int|
                        0 <= k < orig.results_q().len() ==> self.results_q()[k]
                            == orig.results_q()[k])
                    &&& (forall|k: int|
                        0 <= k < done ==> filled_from(
                            orig.request_q()[k],
                            self.results_q()[orig.results_q().len() + k],
                        ))
                },
            decreases self.request_q().len(),
        {
            let popped = queue_try_pop(&mut self.request);
            match popped {
                Some(mut block) => {
                    proof {
                        assert(block == orig.request_q()[done]);
                    }
                    self.render_block(&mut block);
                    if !self.stop {
                        queue_push(&mut self.results, block);
                    }
                    proof {
                        done = done + 1;
                    }
                },
                None => {},
            }
        }
        self.finished = true;
    }

    /// Collects every block that has completed so far, oldest first,
    /// without waiting for more.
    pub fn poll(&mut self) -> (out: Vec<Block>)
        requires
            old(self).wf(),
        ensures
            final(self).wf(),
            out@ == old(self).results_q(),
            final(self).results_q().len() == 0,
            final(self).request_q() == old(self).request_q(),
            final(self).capacity == old(self).capacity,
            final(self).stop == old(self).stop,
            final(self).finished == old(self).finished,
    {
        let ghost orig = *old(self);
        let mut out: Vec<Block> = Vec::new();
        while queue_len(&self.results) > 0
            invariant
                self.capacity == orig.capacity,
                queue_capacity(self.request) == self.capacity,
                queue_capacity(self.results) == self.capacity,
                self.stop == orig.stop,
                self.finished == orig.finished,
                self.request_q() == orig.request_q(),
                out@ + self.results_q() == orig.results_q(),
                self.in_flight() <= self.capacity,
                forall|i: int|
                    0 <= i < self.request_q().len() ==> (#[trigger] self.request_q()[i]).wf()
                        && self.request_q()[i].iteration < u64::MAX,
                forall|i: int|
                    0 <= i < self.results_q().len() ==> (#[trigger] self.results_q()[i]).wf(),
            decreases self.results_q().len(),
        {
            let popped = queue_try_pop(&mut self.results);
            match popped {
                Some(block) => {
                    out.push(block);
                },
                None => {},
            }
        }
        proof {
            assert(out@ =~= orig.results_q());
        }
        out
    }

    /// Requests cancellation: sets the stop flag and discards everything
    /// waiting in the results queue. Blocks still in the request queue
    /// are discarded unpublished by the next pass, and nothing submitted
    /// after this call is ever published.
    pub fn stop(&mut self)
        requires
            old(self).wf(),
        ensures
            final(self).wf(),
            final(self).stop == true,
            final(self).results_q().len() == 0,
            final(self).request_q() == old(self).request_q(),
            final(self).capacity == old(self).capacity,
            final(self).finished == old(self).finished,
    {
        let ghost orig = *old(self);
        self.stop = true;
        while queue_len(&self.results) > 0
            invariant
                self.capacity == orig.capacity,
                queue_capacity(self.request) == self.capacity,
                queue_capacity(self.results) == self.capacity,
                self.stop == true,
                self.finished == orig.finished,
                self.request_q() == orig.request_q(),
                self.in_flight() <= self.capacity,
                forall|i: int|
                    0 <= i < self.request_q().len() ==> (#[trigger] self.request_q()[i]).wf()
                        && self.request_q()[i].iteration < u64::MAX,
                forall|i: int|
                    0 <= i < self.results_q().len() ==> (#[trigger] self.results_q()[i]).wf(),
            decreases self.results_q().len(),
        {
            let _discarded = queue_try_pop(&mut self.results);
        }
    }

    /// Whether the last pass has settled: every submitted block has been
    /// processed and no pass is running.
    pub fn finished(&self) -> (r: bool)
        ensures
            r == self.finished,
    {
        self.finished
    }

    /// How many blocks are inside the renderer, over both queues.
    pub fn pending(&self) -> (n: usize)
        requires
            self.wf(),
        ensures
            n == self.in_flight(),
    {
        queue_len(&self.request) + queue_len(&self.results)
    }
}

} // verus!

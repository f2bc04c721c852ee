//! Laws that relate several operations of the engine. Each lemma's
//! premises are exactly what the operations' own contracts guarantee,
//! so the laws hold of every execution of the engine.

use vstd::prelude::*;

verus! {

use crate::blocks::{Block, BlockManager, filled_from};
use crate::render::Renderer;

/// Round trip: a block checked out of the manager, filled by one pass,
/// and returned ends up back in the free pool with the same identity,
/// rectangle and buffer size, its fill counter advanced by exactly one,
/// and the block set complete again.
///
/// The premises are what `next_block` guarantees when it hands `taken`
/// out of `m0`, what one fill pass guarantees of the block `filled` it
/// publishes for `taken`, and what `return_block` guarantees when
/// `filled` is returned to `m1`.
pub proof fn lemma_round_trip(
    m0: BlockManager,
    m1: BlockManager,
    taken: Block,
    filled: Block,
    m2: BlockManager,
)
    requires
        m0.wf(),
        m0.can_dispatch(),
        taken == m0.blocks@.last(),
        m1.blocks@ == m0.blocks@.drop_last(),
        m1.active_blocks@ == m0.active_blocks@.push(taken.id),
        m1.max_blocks == m0.max_blocks,
        filled_from(taken, filled),
        m2.blocks@ == m1.blocks@.push(filled),
        m2.active_blocks@.len() == m1.active_blocks@.len() - 1,
        m2.active_blocks@.to_set() == m1.active_blocks@.to_set().remove(filled.id),
        m2.max_blocks == m1.max_blocks,
    ensures
        m2.blocks@.last() == filled,
        filled.id == taken.id,
        filled.rect == taken.rect,
        filled.pixels@.len() == taken.pixels@.len(),
        filled.iteration == taken.iteration + 1,
        m2.free_ids().to_set().contains(taken.id),
        m2.total() == m0.total(),
{
    let last = m2.blocks@.len() - 1;
    assert(m2.free_ids()[last] == filled.id);
    assert(m2.free_ids().contains(taken.id));
}

/// No loss: a pass that runs with no stop requested publishes exactly
/// the blocks that were submitted — the identities that come out are
/// the identities that went in, in order — and when the pass started
/// from an empty results queue with no identity submitted twice, the
/// completed blocks are exactly as many as, and as distinct as, the
/// submissions.
///
/// The premises are what `render_frame` guarantees of `after` when it
/// runs on `before` with `before.stop` clear.
pub proof fn lemma_pass_no_loss(before: Renderer, after: Renderer)
    requires
        !before.stop,
        after.results_q().len() == before.results_q().len() + before.request_q().len(),
        forall|k: int|
            0 <= k < before.results_q().len() ==> after.results_q()[k] == before.results_q()[k],
        forall|k: int|
            0 <= k < before.request_q().len() ==> filled_from(
                before.request_q()[k],
                after.results_q()[before.results_q().len() + k],
            ),
    ensures
        after.results_q().map_values(|b: Block| b.id) == before.results_q().map_values(
            |b: Block| b.id,
        ) + before.request_q().map_values(|b: Block| b.id),
        (before.results_q().len() == 0 && before.request_q().map_values(
            |b: Block| b.id,
        ).no_duplicates()) ==> after.results_q().map_values(|b: Block| b.id).no_duplicates(),
{
    let ids = |b: Block| b.id;
    assert(after.results_q().map_values(ids) =~= before.results_q().map_values(ids)
        + before.request_q().map_values(ids));
    if before.results_q().len() == 0 && before.request_q().map_values(ids).no_duplicates() {
        let out = after.results_q().map_values(ids);
        let inn = before.request_q().map_values(ids);
        assert forall|i: int, j: int|
            0 <= i < out.len() && 0 <= j < out.len() && i != j implies out[i] != out[j] by {
            assert(out[i] == inn[i] && out[j] == inn[j]);
        }
    }
}

/// Cancellation is silent: once `stop` has run — the flag is set and the
/// results queue is drained — a later submission adds nothing to the
/// results, a later pass publishes nothing, and a poll finds nothing.
///
/// The premises are what `submit` guarantees of `after_submit` and what
/// `render_frame` guarantees of `after_pass` when the stop flag is set.
pub proof fn lemma_stop_silences(stopped: Renderer, after_submit: Renderer, after_pass: Renderer)
    requires
        stopped.stop,
        stopped.results_q().len() == 0,
        after_submit.stop == stopped.stop,
        after_submit.results_q() == stopped.results_q(),
        after_pass.stop == after_submit.stop,
        after_submit.stop ==> after_pass.results_q() == after_submit.results_q(),
    ensures
        after_pass.results_q().len() == 0,
        after_pass.stop,
{
}

} // verus!

//! End-to-end tests of the tile engine: decomposition, admission
//! control, the fill pass, cancellation, and color packing.

use tile_engine::blocks::{Block, BlockManager};
use tile_engine::color::{packed_color_from_u8_rgb, Color};
use tile_engine::geometry::{decompose, index_from_xy, rect_height, rect_width, Rect};
use tile_engine::render::Renderer;

#[test]
fn test_one() {
    assert_eq!(0, 0);
}

#[test]
fn decompose_example() {
    // a 48 x 40 image in 32 x 32 tiles: four tiles, the right column and
    // bottom row clipped to the image
    let rects = decompose(48, 40, 32, 32);
    assert_eq!(rects.len(), 4);
    assert_eq!(rects[0], Rect { x: 0, y: 0, z: 32, w: 32 });
    assert_eq!(rects[1], Rect { x: 32, y: 0, z: 48, w: 32 });
    assert_eq!(rects[2], Rect { x: 0, y: 32, z: 32, w: 40 });
    assert_eq!(rects[3], Rect { x: 32, y: 32, z: 48, w: 40 });
}

#[test]
fn decompose_exact_fit_and_degenerate() {
    let rects = decompose(64, 32, 32, 32);
    assert_eq!(rects.len(), 2);
    assert_eq!(rects[0], Rect { x: 0, y: 0, z: 32, w: 32 });
    assert_eq!(rects[1], Rect { x: 32, y: 0, z: 64, w: 32 });
    assert_eq!(decompose(0, 40, 32, 32).len(), 0);
    assert_eq!(decompose(48, 0, 32, 32).len(), 0);
    assert_eq!(decompose(0, 0, 32, 32).len(), 0);
}

#[test]
fn decompose_covers_without_overlap() {
    // every pixel of a 70 x 50 image is covered by exactly one tile
    let rects = decompose(70, 50, 32, 32);
    for py in 0..50u32 {
        for px in 0..70u32 {
            let mut owners = 0;
            for r in &rects {
                if r.x <= px && px < r.z && r.y <= py && py < r.w {
                    owners += 1;
                }
            }
            assert_eq!(owners, 1);
        }
    }
}

#[test]
fn rect_accessors() {
    let r = Rect::new(2, 3, 10, 8);
    assert_eq!(rect_width(&r), 8);
    assert_eq!(rect_height(&r), 5);
}

#[test]
fn index_from_xy_row_major() {
    assert_eq!(index_from_xy(500, 500, 3, 2), 1003);
    assert_eq!(index_from_xy(500, 500, 0, 0), 0);
}

#[test]
fn new_block_is_blank() {
    let r = Rect::new(0, 0, 32, 20);
    let b = Block::new(&r);
    assert_eq!(b.rect, r);
    assert_eq!(b.iteration, 0);
    assert_eq!(b.pixels.len(), 32 * 20);
    assert!(b.pixels.iter().all(|c| *c == Color { x: 0, y: 0, z: 0 }));
}

#[test]
fn manager_partitions_blocks() {
    // a 64 x 64 image in 32 x 32 tiles: four blocks, all free at first
    let mut m = BlockManager::with_max_concurrency(64, 64, 2);
    assert_eq!(m.blocks.len(), 4);
    assert_eq!(m.active_blocks.len(), 0);
    let a = m.next_block().unwrap();
    // the checked-out block moved from the free pool to the active set
    assert_eq!(m.blocks.len(), 3);
    assert_eq!(m.active_blocks, vec![a.id]);
    assert!(m.blocks.iter().all(|b| b.id != a.id));
    m.return_block(a);
    assert_eq!(m.blocks.len(), 4);
    assert_eq!(m.active_blocks.len(), 0);
}

#[test]
fn admission_ceiling() {
    let mut m = BlockManager::with_max_concurrency(64, 64, 2);
    let a = m.next_block().unwrap();
    let _b = m.next_block().unwrap();
    // the ceiling of two is reached, so no third block comes out
    assert!(m.next_block().is_none());
    // and one return immediately re-enables dispatch
    m.return_block(a);
    assert!(m.next_block().is_some());
}

#[test]
fn default_manager_dispatches() {
    // the default ceiling is the hardware parallelism, which is at least one
    let mut m = BlockManager::new(64, 64);
    assert!(m.max_blocks >= 1);
    assert!(m.next_block().is_some());
}

#[test]
fn round_trip_preserves_block() {
    let mut m = BlockManager::with_max_concurrency(64, 64, 2);
    let mut r = Renderer::new(64, 64);
    let taken = m.next_block().unwrap();
    let id = taken.id;
    let rect = taken.rect;
    let len = taken.pixels.len();
    let iteration = taken.iteration;
    r.submit(taken);
    r.render_frame();
    let mut done = r.poll();
    assert_eq!(done.len(), 1);
    let filled = done.pop().unwrap();
    assert_eq!(filled.id, id);
    assert_eq!(filled.rect, rect);
    assert_eq!(filled.pixels.len(), len);
    assert_eq!(filled.iteration, iteration + 1);
    m.return_block(filled);
    assert_eq!(m.blocks.len(), 4);
    assert_eq!(m.active_blocks.len(), 0);
    assert!(m.next_block().is_some());
}

#[test]
fn full_pass_loses_no_block() {
    // submit every block of a fresh manager, run one pass, and poll:
    // exactly as many distinct blocks come back as went in, in order,
    // each fully painted
    let mut m = BlockManager::with_max_concurrency(96, 64, 6);
    let total = m.blocks.len();
    assert_eq!(total, 6);
    let mut r = Renderer::new(96, 64);
    let mut submitted = Vec::new();
    while let Some(b) = m.next_block() {
        submitted.push(b.id);
        r.submit(b);
    }
    assert_eq!(submitted.len(), total);
    assert!(!r.finished());
    r.render_frame();
    assert!(r.finished());
    let done = r.poll();
    assert_eq!(done.len(), total);
    let mut seen: Vec<usize> = done.iter().map(|b| b.id).collect();
    assert_eq!(seen, submitted);
    seen.sort();
    seen.dedup();
    assert_eq!(seen.len(), total);
    for b in &done {
        let w = (b.rect.z - b.rect.x) as usize;
        let h = (b.rect.w - b.rect.y) as usize;
        assert_eq!(b.pixels.len(), w * h);
        // the pass overwrote the blank buffer: no default sample remains
        assert!(b.pixels.iter().all(|c| *c != Color { x: 0, y: 0, z: 0 }));
    }
    for b in done {
        m.return_block(b);
    }
    assert_eq!(m.blocks.len(), total);
    assert_eq!(m.active_blocks.len(), 0);
}

#[test]
fn repeated_fills_advance_iteration() {
    let mut m = BlockManager::with_max_concurrency(32, 32, 1);
    let mut r = Renderer::new(32, 32);
    let b = m.next_block().unwrap();
    let id = b.id;
    r.submit(b);
    r.render_frame();
    let first = r.poll().pop().unwrap();
    assert_eq!(first.iteration, 1);
    r.submit(first);
    r.render_frame();
    let second = r.poll().pop().unwrap();
    assert_eq!(second.iteration, 2);
    assert_eq!(second.id, id);
    m.return_block(second);
}

#[test]
fn stop_discards_pending_and_future_work() {
    let mut m = BlockManager::with_max_concurrency(64, 64, 4);
    let mut r = Renderer::new(64, 64);
    // a completed result and a still-pending request are both discarded
    r.submit(m.next_block().unwrap());
    r.render_frame();
    r.submit(m.next_block().unwrap());
    r.stop();
    assert!(r.poll().is_empty());
    r.render_frame();
    assert!(r.poll().is_empty());
    // and a submission after the stop produces no output either
    r.submit(m.next_block().unwrap());
    r.render_frame();
    assert!(r.poll().is_empty());
    assert_eq!(r.pending(), 0);
}

#[test]
fn renderer_starts_idle() {
    let r = Renderer::new(64, 64);
    assert!(r.finished());
    assert_eq!(r.pending(), 0);
    assert_eq!(r.capacity, 4);
}

#[test]
fn pack_full_and_zero_channels() {
    assert_eq!(packed_color_from_u8_rgb(255, 255, 255), 0xFFFFFF);
    assert_eq!(packed_color_from_u8_rgb(0, 0, 0), 0x000000);
    assert_eq!(packed_color_from_u8_rgb(1, 2, 3), 0x010203);
    assert_eq!(packed_color_from_u8_rgb(0x12, 0x34, 0x56), 0x123456);
}

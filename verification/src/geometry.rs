//! Axis-aligned integer rectangles and the row-major tile decomposition
//! of an image into blocks.

use vstd::prelude::*;

verus! {

use vstd::arithmetic::div_mod::{
    lemma_fundamental_div_mod,
    lemma_fundamental_div_mod_converse,
    lemma_div_pos_is_pos,
    lemma_multiply_divide_lt,
    lemma_mod_division_less_than_divisor,
};
use vstd::arithmetic::mul::{
    lemma_mul_inequality,
    lemma_mul_nonnegative,
    lemma_mul_is_distributive_add_other_way,
};

/// An axis-aligned rectangle on the pixel grid: the half-open area
/// `[x, z) x [y, w)`. A well-formed rectangle has `x <= z` and `y <= w`.
#[derive(Clone, Copy, PartialEq, Eq, Structural, Debug)]
pub struct Rect {
    pub x: u32,
    pub y: u32,
    pub z: u32,
    pub w: u32,
}

impl Rect {
    /// The corners are ordered: the left edge at or before the right
    /// edge, the top edge at or before the bottom edge.
    pub open spec fn wf(self) -> bool {
        self.x <= self.z && self.y <= self.w
    }

    pub open spec fn spec_width(self) -> int {
        self.z - self.x
    }

    pub open spec fn spec_height(self) -> int {
        self.w - self.y
    }

    pub fn new(x: u32, y: u32, z: u32, w: u32) -> (r: Rect)
        requires
            x <= z,
            y <= w,
        ensures
            r == (Rect { x, y, z, w }),
            r.wf(),
    {
        Rect { x, y, z, w }
    }
}

/// Number of columns of pixels covered by the rectangle.
pub fn rect_width(rect: &Rect) -> (r: u32)
    requires
        rect.wf(),
    ensures
        r == rect.spec_width(),
{
    rect.z - rect.x
}

/// Number of rows of pixels covered by the rectangle.
pub fn rect_height(rect: &Rect) -> (r: u32)
    requires
        rect.wf(),
    ensures
        r == rect.spec_height(),
{
    rect.w - rect.y
}

/// Flat index of the pixel `(x, y)` in a row-major buffer for an image
/// `image_width` pixels wide.
pub fn index_from_xy(image_width: u32, _image_height: u32, x: u32, y: u32) -> (r: usize)
    requires
        y * image_width + x <= u32::MAX,
    ensures
        r == y * image_width + x,
{
    (y * image_width + x) as usize
}

/// Whether the pixel `(px, py)` lies inside the rectangle.
pub open spec fn rect_contains(r: Rect, px: int, py: int) -> bool {
    &&& r.x <= px < r.z
    &&& r.y <= py < r.w
}

/// How many tiles of size `tile` cover `extent` pixels: the quotient
/// rounded up, and zero when `extent` is zero.
pub open spec fn grid_count(extent: u32, tile: u32) -> int
    recommends
        tile >= 1,
{
    (extent + tile - 1) / (tile as int)
}

/// The tile in row `row`, column `col` of the decomposition of an
/// `iw x ih` image into `tw x th` tiles: a full tile, clipped to the
/// image's right and bottom edges.
pub open spec fn tile_rect(iw: u32, ih: u32, tw: u32, th: u32, row: int, col: int) -> Rect {
    Rect {
        x: (col * tw) as u32,
        y: (row * th) as u32,
        z: (if col * tw + tw <= iw { col * tw + tw } else { iw as int }) as u32,
        w: (if row * th + th <= ih { row * th + th } else { ih as int }) as u32,
    }
}

/// The row-major sequence of tiles covering `[0, iw) x [0, ih)`.
pub open spec fn decompose_spec(iw: u32, ih: u32, tw: u32, th: u32) -> Seq<Rect> {
    Seq::new(
        (grid_count(ih, th) * grid_count(iw, tw)) as nat,
        |k: int| tile_rect(iw, ih, tw, th, k / grid_count(iw, tw), k % grid_count(iw, tw)),
    )
}

/// The flat, row-major index of the tile that contains pixel `(px, py)`.
pub open spec fn cover_index(iw: u32, ih: u32, tw: u32, th: u32, px: int, py: int) -> int {
    (py / (th as int)) * grid_count(iw, tw) + px / (tw as int)
}

/// The tile count along one axis reaches the end of the image, and the
/// last tile still starts inside it.
proof fn lemma_grid_count(extent: u32, tile: u32)
    requires
        tile >= 1,
    ensures
        0 <= grid_count(extent, tile) <= extent,
        extent <= grid_count(extent, tile) * tile,
        grid_count(extent, tile) * tile < extent + tile,
        grid_count(extent, tile) == 0 <==> extent == 0,
{
    let e = extent as int;
    let t = tile as int;
    let g = grid_count(extent, tile);
    lemma_fundamental_div_mod(e + t - 1, t);
    lemma_mod_division_less_than_divisor(e + t - 1, t);
    lemma_div_pos_is_pos(e + t - 1, t);
    // e + t - 1 == t * g + r with 0 <= r < t, hence e <= g * t <= e + t - 1
    assert(g * t == t * g);
    if g >= 1 {
        // g <= g * t and g - 1 <= (g - 1) * t because t >= 1
        lemma_mul_inequality(1, t, g);
        lemma_mul_inequality(1, t, g - 1);
        assert((g - 1) * t == g * t - t) by {
            lemma_mul_is_distributive_add_other_way(t, g - 1, 1);
        }
        // (g - 1) * t < e, so g - 1 <= e - 1
        assert(g <= e);
    }
}

/// Every tile index `i < grid_count` starts strictly inside the image.
proof fn lemma_tile_start(extent: u32, tile: u32, i: int)
    requires
        tile >= 1,
        0 <= i < grid_count(extent, tile),
    ensures
        0 <= i * tile,
        i * tile < extent,
{
    lemma_grid_count(extent, tile);
    lemma_mul_nonnegative(i, tile as int);
    let g = grid_count(extent, tile);
    let t = tile as int;
    // i <= g - 1, so i * t <= (g - 1) * t == g * t - t < extent
    lemma_mul_inequality(i, g - 1, t);
    assert((g - 1) * t == g * t - t) by {
        lemma_mul_is_distributive_add_other_way(t, g - 1, 1);
    }
}

/// Each tile of the decomposition grid is non-degenerate, lies inside
/// the image, and is at most `tw x th` pixels.
proof fn lemma_tile_rect_wf(iw: u32, ih: u32, tw: u32, th: u32, row: int, col: int)
    requires
        tw >= 1,
        th >= 1,
        0 <= col < grid_count(iw, tw),
        0 <= row < grid_count(ih, th),
    ensures
        tile_rect(iw, ih, tw, th, row, col).wf(),
        tile_rect(iw, ih, tw, th, row, col).x == col * tw,
        tile_rect(iw, ih, tw, th, row, col).y == row * th,
        tile_rect(iw, ih, tw, th, row, col).x < tile_rect(iw, ih, tw, th, row, col).z <= iw,
        tile_rect(iw, ih, tw, th, row, col).y < tile_rect(iw, ih, tw, th, row, col).w <= ih,
        tile_rect(iw, ih, tw, th, row, col).z <= col * tw + tw,
        tile_rect(iw, ih, tw, th, row, col).w <= row * th + th,
        tile_rect(iw, ih, tw, th, row, col).spec_width() <= tw,
        tile_rect(iw, ih, tw, th, row, col).spec_height() <= th,
{
    lemma_tile_start(iw, tw, col);
    lemma_tile_start(ih, th, row);
}

/// Every rectangle that the decomposition produces is non-empty, lies
/// inside the image, and is at most `tw x th` pixels.
pub proof fn lemma_decompose_in_bounds(iw: u32, ih: u32, tw: u32, th: u32, k: int)
    requires
        tw >= 1,
        th >= 1,
        0 <= k < decompose_spec(iw, ih, tw, th).len(),
    ensures
        ({
            let r = decompose_spec(iw, ih, tw, th)[k];
            r.wf() && r.x < r.z <= iw && r.y < r.w <= ih && r.spec_width() <= tw
                && r.spec_height() <= th
        }),
{
    let rows = grid_count(ih, th);
    let cols = grid_count(iw, tw);
    lemma_grid_count(iw, tw);
    lemma_grid_count(ih, th);
    assert(cols >= 1 && rows >= 1) by {
        if cols == 0 || rows == 0 {
            assert(rows * cols == 0) by (nonlinear_arith)
                requires
                    rows == 0 || cols == 0,
            ;
        }
    }
    lemma_mod_division_less_than_divisor(k, cols);
    lemma_div_pos_is_pos(k, cols);
    assert(k < cols * rows);
    lemma_multiply_divide_lt(k, cols, rows);
    lemma_tile_rect_wf(iw, ih, tw, th, k / cols, k % cols);
}

/// Coverage: every pixel of the image lies in the tile at its cover
/// index.
pub proof fn lemma_decompose_covers(iw: u32, ih: u32, tw: u32, th: u32, px: int, py: int)
    requires
        tw >= 1,
        th >= 1,
        0 <= px < iw,
        0 <= py < ih,
    ensures
        0 <= cover_index(iw, ih, tw, th, px, py) < decompose_spec(iw, ih, tw, th).len(),
        rect_contains(
            decompose_spec(iw, ih, tw, th)[cover_index(iw, ih, tw, th, px, py)],
            px,
            py,
        ),
{
    let rows = grid_count(ih, th);
    let cols = grid_count(iw, tw);
    let t_w = tw as int;
    let t_h = th as int;
    let c = px / t_w;
    let q = py / t_h;
    lemma_grid_count(iw, tw);
    lemma_grid_count(ih, th);
    lemma_fundamental_div_mod(px, t_w);
    lemma_mod_division_less_than_divisor(px, t_w);
    lemma_div_pos_is_pos(px, t_w);
    lemma_fundamental_div_mod(py, t_h);
    lemma_mod_division_less_than_divisor(py, t_h);
    lemma_div_pos_is_pos(py, t_h);
    // the pixel's own column and row are inside the grid
    assert(px < t_w * cols) by {
        assert(iw <= cols * t_w);
        assert(cols * t_w == t_w * cols);
    }
    lemma_multiply_divide_lt(px, t_w, cols);
    assert(py < t_h * rows) by {
        assert(ih <= rows * t_h);
        assert(rows * t_h == t_h * rows);
    }
    lemma_multiply_divide_lt(py, t_h, rows);
    let k = q * cols + c;
    lemma_mul_nonnegative(q, cols);
    assert(k < rows * cols) by {
        lemma_mul_inequality(q, rows - 1, cols);
        assert((rows - 1) * cols == rows * cols - cols) by {
            lemma_mul_is_distributive_add_other_way(cols, rows - 1, 1);
        }
    }
    lemma_fundamental_div_mod_converse(k, cols, q, c);
    lemma_tile_rect_wf(iw, ih, tw, th, q, c);
    // the tile starts at or before the pixel and ends after it
    assert(c * t_w <= px < c * t_w + t_w) by {
        assert(px == t_w * c + px % t_w);
        assert(t_w * c == c * t_w);
    }
    assert(q * t_h <= py < q * t_h + t_h) by {
        assert(py == t_h * q + py % t_h);
        assert(t_h * q == q * t_h);
    }
}

/// No overlap: a pixel lies in no tile other than the one at its cover
/// index.
pub proof fn lemma_decompose_unique(iw: u32, ih: u32, tw: u32, th: u32, k: int, px: int, py: int)
    requires
        tw >= 1,
        th >= 1,
        0 <= k < decompose_spec(iw, ih, tw, th).len(),
        rect_contains(decompose_spec(iw, ih, tw, th)[k], px, py),
    ensures
        k == cover_index(iw, ih, tw, th, px, py),
{
    let rows = grid_count(ih, th);
    let cols = grid_count(iw, tw);
    let t_w = tw as int;
    let t_h = th as int;
    lemma_grid_count(iw, tw);
    lemma_grid_count(ih, th);
    assert(cols >= 1 && rows >= 1) by {
        if cols == 0 || rows == 0 {
            assert(rows * cols == 0) by (nonlinear_arith)
                requires
                    rows == 0 || cols == 0,
            ;
        }
    }
    let c = k % cols;
    let q = k / cols;
    lemma_mod_division_less_than_divisor(k, cols);
    lemma_div_pos_is_pos(k, cols);
    assert(k < cols * rows);
    lemma_multiply_divide_lt(k, cols, rows);
    lemma_tile_rect_wf(iw, ih, tw, th, q, c);
    // the pixel's coordinates pin down the tile's column and row
    assert(c * t_w <= px < c * t_w + t_w);
    lemma_fundamental_div_mod_converse(px, t_w, c, px - c * t_w);
    assert(q * t_h <= py < q * t_h + t_h);
    lemma_fundamental_div_mod_converse(py, t_h, q, py - q * t_h);
    lemma_fundamental_div_mod(k, cols);
    assert(k == cols * (k / cols) + k % cols);
    assert(cols * q == q * cols);
}

/// Tiles a rectangular image into a row-major sequence of non-overlapping
/// rectangles of `tile_width x tile_height` pixels, clipping the last
/// column and row to the image bounds. A zero-width or zero-height image
/// yields no tiles.
pub fn decompose(image_width: u32, image_height: u32, tile_width: u32, tile_height: u32) -> (r:
    Vec<Rect>)
    requires
        tile_width >= 1,
        tile_height >= 1,
    ensures
        r@ == decompose_spec(image_width, image_height, tile_width, tile_height),
{
    let ghost gspec = decompose_spec(image_width, image_height, tile_width, tile_height);
    proof {
        lemma_grid_count(image_width, tile_width);
        lemma_grid_count(image_height, tile_height);
    }
    let cols64: u64 = (image_width as u64 + tile_width as u64 - 1) / (tile_width as u64);
    let rows64: u64 = (image_height as u64 + tile_height as u64 - 1) / (tile_height as u64);
    let cols: u32 = cols64 as u32;
    let rows: u32 = rows64 as u32;
    assert(cols == grid_count(image_width, tile_width));
    assert(rows == grid_count(image_height, tile_height));
    let mut rects: Vec<Rect> = Vec::new();
    let mut row: u32 = 0;
    proof {
        lemma_mul_nonnegative(rows as int, cols as int);
    }
    while row < rows
        invariant
            tile_width >= 1,
            tile_height >= 1,
            cols == grid_count(image_width, tile_width),
            rows == grid_count(image_height, tile_height),
            gspec == decompose_spec(image_width, image_height, tile_width, tile_height),
            gspec.len() == rows * cols,
            row <= rows,
            row * cols <= rows * cols,
            rects@ == gspec.take((row * cols) as int),
        decreases rows - row,
    {
        proof {
            lemma_tile_start(image_height, tile_height, row as int);
        }
        let y64: u64 = (row as u64) * (tile_height as u64);
        let y: u32 = y64 as u32;
        let mut col: u32 = 0;
        while col < cols
            invariant
                tile_width >= 1,
                tile_height >= 1,
                cols == grid_count(image_width, tile_width),
                rows == grid_count(image_height, tile_height),
                gspec == decompose_spec(image_width, image_height, tile_width, tile_height),
                gspec.len() == rows * cols,
                row < rows,
                col <= cols,
                y == row * tile_height,
                y < image_height,
                row * cols + col <= rows * cols,
                rects@ == gspec.take((row * cols + col) as int),
            decreases cols - col,
        {
            proof {
                lemma_tile_start(image_width, tile_width, col as int);
            }
            let x64: u64 = (col as u64) * (tile_width as u64);
            let x: u32 = x64 as u32;
            let z: u32 = if image_width - x > tile_width {
                x + tile_width
            } else {
                image_width
            };
            let w: u32 = if image_height - y > tile_height {
                y + tile_height
            } else {
                image_height
            };
            let rc = Rect::new(x, y, z, w);
            proof {
                let ki = row * cols + col;
                lemma_fundamental_div_mod_converse(ki, cols as int, row as int, col as int);
                assert(ki + 1 <= rows * cols) by {
                    lemma_mul_inequality(row as int + 1, rows as int, cols as int);
                    lemma_mul_is_distributive_add_other_way(cols as int, row as int, 1);
                }
                lemma_tile_rect_wf(image_width, image_height, tile_width, tile_height,
                    row as int, col as int);
                assert(gspec[ki] == rc);
                assert(gspec.take(ki + 1) =~= gspec.take(ki).push(gspec[ki]));
            }
            rects.push(rc);
            col = col + 1;
        }
        row = row + 1;
        proof {
            lemma_mul_is_distributive_add_other_way(cols as int, row as int - 1, 1);
            lemma_mul_inequality(row as int, rows as int, cols as int);
        }
    }
    proof {
        assert(rects@ =~= gspec);
    }
    rects
}

} // verus!

//! Row-major addressing of a rectangular grid: the one place where
//! coordinates and tile indices are converted into each other.

use vstd::prelude::*;

verus! {

/// The index of tile `(x, y)` in a grid `width` tiles wide.
pub open spec fn tile_index(width: int, x: int, y: int) -> int {
    y * width + x
}

/// The column of the tile with index `idx`.
pub open spec fn tile_x(width: int, idx: int) -> int {
    idx % width
}

/// The row of the tile with index `idx`.
pub open spec fn tile_y(width: int, idx: int) -> int {
    idx / width
}

/// Row-major order on coordinates: `(x1, y1)` comes before `(x2, y2)`.
pub open spec fn scans_before(x1: int, y1: int, x2: int, y2: int) -> bool {
    y1 < y2 || (y1 == y2 && x1 < x2)
}

/// Every tile of the grid has an index below the grid's area.
pub proof fn lemma_tile_index_bounds(width: int, height: int, x: int, y: int)
    by (nonlinear_arith)
    requires
        0 <= x < width,
        0 <= y < height,
    ensures
        0 <= tile_index(width, x, y) < width * height,
{
}

/// Two tiles of one grid with the same index are the same tile.
pub proof fn lemma_tile_index_injective(width: int, x1: int, y1: int, x2: int, y2: int)
    by (nonlinear_arith)
    requires
        0 <= x1 < width,
        0 <= x2 < width,
        tile_index(width, x1, y1) == tile_index(width, x2, y2),
    ensures
        x1 == x2,
        y1 == y2,
{
}

/// Indices grow in row-major order.
pub proof fn lemma_tile_index_monotonic(width: int, x1: int, y1: int, x2: int, y2: int)
    by (nonlinear_arith)
    requires
        0 <= x1 < width,
        0 <= x2 < width,
        scans_before(x1, y1, x2, y2),
    ensures
        tile_index(width, x1, y1) < tile_index(width, x2, y2),
{
}

/// Column and row undo `tile_index`.
pub proof fn lemma_tile_index_inverse(width: int, x: int, y: int)
    requires
        0 <= x < width,
    ensures
        tile_x(width, tile_index(width, x, y)) == x,
        tile_y(width, tile_index(width, x, y)) == y,
{
    vstd::arithmetic::div_mod::lemma_fundamental_div_mod_converse(
        tile_index(width, x, y),
        width,
        y,
        x,
    );
}

/// `tile_index` undoes column and row, and both stay inside the grid.
pub proof fn lemma_tile_coordinates(width: int, height: int, idx: int)
    requires
        0 < width,
        0 <= idx < width * height,
    ensures
        0 <= tile_x(width, idx) < width,
        0 <= tile_y(width, idx) < height,
        tile_index(width, tile_x(width, idx), tile_y(width, idx)) == idx,
{
    vstd::arithmetic::div_mod::lemma_fundamental_div_mod(idx, width);
    vstd::arithmetic::div_mod::lemma_mod_bound(idx, width);
    let q = idx / width;
    let r = idx % width;
    assert(width * q == q * width) by (nonlinear_arith);
    assert(0 <= q < height) by (nonlinear_arith)
        requires
            0 < width,
            0 <= r < width,
            idx == q * width + r,
            0 <= idx < width * height,
    ;
}

/// Whether a grid of this size can be held: it is not empty and its area
/// fits in an `i32`.
pub open spec fn size_ok(width: int, height: int) -> bool {
    1 <= width && 1 <= height && width * height <= i32::MAX
}

/// Whether a grid of this size can be held.
pub fn check_size(width: i32, height: i32) -> (ok: bool)
    ensures
        ok == size_ok(width as int, height as int),
{
    if width < 1 || height < 1 {
        return false;
    }
    assert(width * height <= 0x8000_0000 * 0x8000_0000) by (nonlinear_arith)
        requires
            1 <= width <= 0x7fff_ffff,
            1 <= height <= 0x7fff_ffff,
    ;
    let area: i64 = (width as i64) * (height as i64);
    area <= i32::MAX as i64
}

/// The index of tile `(x, y)` in a grid of the given size.
pub fn index_at(width: i32, height: i32, x: i32, y: i32) -> (idx: usize)
    requires
        size_ok(width as int, height as int),
        0 <= x < width,
        0 <= y < height,
    ensures
        idx == tile_index(width as int, x as int, y as int),
        idx < width * height,
{
    proof {
        lemma_tile_index_bounds(width as int, height as int, x as int, y as int);
    }
    (y as usize) * (width as usize) + (x as usize)
}

} // verus!

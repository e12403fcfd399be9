//! Line of sight on the grid. The sight line from one tile to another is
//! marched in as many steps as the Chebyshev distance between them; sight is
//! clear when no step strictly between the two ends is a wall.

use vstd::prelude::*;
use vstd::arithmetic::div_mod::{
    lemma_fundamental_div_mod,
    lemma_hoist_over_denominator,
    lemma_mod_bound,
};
use crate::grid::{tile_x, tile_y};
use crate::map::{TileMap, TileMapView, TileType, between};
use crate::sorted::{strictly_increasing, lemma_increasing_unique};

verus! {

/// The absolute value of `v`.
pub open spec fn abs(v: int) -> int {
    if v < 0 {
        -v
    } else {
        v
    }
}

/// The Chebyshev distance between `(ax, ay)` and `(bx, by)`.
pub open spec fn chebyshev(ax: int, ay: int, bx: int, by: int) -> int {
    if abs(bx - ax) >= abs(by - ay) {
        abs(bx - ax)
    } else {
        abs(by - ay)
    }
}

/// How far along one axis the sight line has come after `k` of `n` steps,
/// when it covers `d` on that axis in all: `k * d / n`, rounded to the
/// nearest integer, a half rounded up.
pub open spec fn ray_offset(d: int, n: int, k: int) -> int {
    (2 * k * d + n) / (2 * n)
}

/// The column of step `k` on the sight line from `(ax, ay)` to `(bx, by)`.
pub open spec fn ray_x(ax: int, ay: int, bx: int, by: int, k: int) -> int {
    ax + ray_offset(bx - ax, chebyshev(ax, ay, bx, by), k)
}

/// The row of step `k` on the sight line from `(ax, ay)` to `(bx, by)`.
pub open spec fn ray_y(ax: int, ay: int, bx: int, by: int, k: int) -> int {
    ay + ray_offset(by - ay, chebyshev(ax, ay, bx, by), k)
}

impl TileMapView {
    /// Whether step `k` of the sight line from `(ax, ay)` to `(bx, by)` is
    /// a wall.
    pub open spec fn ray_blocked(self, ax: int, ay: int, bx: int, by: int, k: int) -> bool {
        self.tile_at(ray_x(ax, ay, bx, by, k), ray_y(ax, ay, bx, by, k)) == TileType::Wall
    }

    /// Whether no wall stands strictly between `(ax, ay)` and `(bx, by)`.
    /// The two ends themselves do not count: a wall can be seen.
    pub open spec fn clear_between(self, ax: int, ay: int, bx: int, by: int) -> bool {
        forall|k: int|
            0 < k < chebyshev(ax, ay, bx, by) ==> !#[trigger] self.ray_blocked(ax, ay, bx, by, k)
    }

    /// Whether an actor at `(ax, ay)` with sight range `range` sees the tile
    /// `(bx, by)`: the range is positive, the tile is on the map and within
    /// range, and sight between the two is clear.
    pub open spec fn sees(self, ax: int, ay: int, range: int, bx: int, by: int) -> bool {
        &&& range > 0
        &&& self.in_bounds(bx, by)
        &&& chebyshev(ax, ay, bx, by) <= range
        &&& self.clear_between(ax, ay, bx, by)
    }

    /// `sees`, of the tile with index `idx`.
    pub open spec fn sees_index(self, ax: int, ay: int, range: int, idx: int) -> bool {
        &&& 0 <= idx < self.area()
        &&& self.sees(ax, ay, range, tile_x(self.width, idx), tile_y(self.width, idx))
    }

    /// Whether `seen` is the field of view of an actor at `(ax, ay)` with
    /// sight range `range`: the indices of exactly the tiles that the actor
    /// sees, in increasing order.
    pub open spec fn is_field_of_view(self, ax: int, ay: int, range: int, seen: Seq<usize>) -> bool {
        &&& strictly_increasing(seen)
        &&& forall|k: int|
            0 <= k < seen.len() ==> self.sees_index(ax, ay, range, #[trigger] seen[k] as int)
        &&& forall|idx: int| #[trigger]
            self.sees_index(ax, ay, range, idx) ==> seen.contains(idx as usize)
    }
}

/// The sight line stays between its two ends on each axis.
pub proof fn lemma_ray_offset_range(d: int, n: int, k: int)
    requires
        n > 0,
        -n <= d <= n,
        0 <= k <= n,
    ensures
        between(0, d, ray_offset(d, n, k)),
{
    let x = 2 * k * d + n;
    let m = 2 * n;
    lemma_fundamental_div_mod(x, m);
    lemma_mod_bound(x, m);
    let q = x / m;
    let r = x % m;
    assert(between(0, d, q)) by (nonlinear_arith)
        requires
            n > 0,
            -n <= d <= n,
            0 <= k <= n,
            x == 2 * k * d + n,
            m == 2 * n,
            x == m * q + r,
            0 <= r < m,
    ;
}

/// Walked from the other end, the sight line passes through the same
/// tiles: step `n - k` from there is step `k` from here.
pub proof fn lemma_ray_offset_reversed(d: int, n: int, k: int)
    requires
        n > 0,
    ensures
        ray_offset(-d, n, n - k) == ray_offset(d, n, k) - d,
{
    let x = 2 * k * d + n;
    assert(2 * (n - k) * (-d) + n == x + (-d) * (2 * n)) by (nonlinear_arith)
        requires
            x == 2 * k * d + n,
    ;
    lemma_hoist_over_denominator(x, -d, (2 * n) as nat);
}

/// The offset computed from a numerator that is never negative.
proof fn lemma_ray_offset_shifted(d: int, n: int, k: int)
    requires
        n > 0,
    ensures
        (2 * k * (d + n) + n) / (2 * n) == ray_offset(d, n, k) + k,
{
    let x = 2 * k * d + n;
    assert(2 * k * (d + n) + n == x + k * (2 * n)) by (nonlinear_arith)
        requires
            x == 2 * k * d + n,
    ;
    lemma_hoist_over_denominator(x, k, (2 * n) as nat);
}

/// The Chebyshev distance between `(ax, ay)` and `(bx, by)`.
pub fn chebyshev_distance(ax: i32, ay: i32, bx: i32, by: i32) -> (n: u32)
    ensures
        n == chebyshev(ax as int, ay as int, bx as int, by as int),
{
    let dx = span(ax, bx);
    let dy = span(ay, by);
    if dx >= dy {
        dx
    } else {
        dy
    }
}

/// How far apart two coordinates are.
pub fn span(a: i32, b: i32) -> (d: u32)
    ensures
        d == abs(b - a),
{
    if b >= a {
        (b as i64 - a as i64) as u32
    } else {
        (a as i64 - b as i64) as u32
    }
}

fn ray_step(from: i32, to: i32, n: i32, k: i32) -> (at: i32)
    requires
        0 <= from,
        0 <= to,
        n > 0,
        abs(to - from) <= n,
        0 <= k <= n,
    ensures
        at == from + ray_offset(to - from, n as int, k as int),
        between(from as int, to as int, at as int),
{
    let d_shifted: u64 = ((to as i64 - from as i64) + n as i64) as u64;
    let steps: u64 = k as u64;
    let total: u64 = n as u64;
    proof {
        lemma_ray_offset_range(to - from, n as int, k as int);
        lemma_ray_offset_shifted(to - from, n as int, k as int);
        assert(2 * steps * d_shifted + total <= 2 * 0x7fff_ffff * 0xffff_fffe + 0x7fff_ffff)
            by (nonlinear_arith)
            requires
                0 <= steps <= 0x7fff_ffff,
                0 <= d_shifted <= 0xffff_fffe,
                0 <= total <= 0x7fff_ffff,
        ;
        assert(steps * d_shifted >= 0) by (nonlinear_arith)
            requires
                steps >= 0,
                d_shifted >= 0,
        ;
        assert(2 * steps * d_shifted == 2 * (steps * d_shifted)) by (nonlinear_arith);
        assert(2 * k * ((to - from) + n) == 2 * steps * d_shifted);
    }
    let shifted: u64 = (2 * steps * d_shifted + total) / (2 * total);
    let offset: i64 = shifted as i64 - k as i64;
    (from as i64 + offset) as i32
}

impl TileMap {
    /// Whether no wall stands strictly between the two tiles.
    pub fn has_line_of_sight(&self, ax: i32, ay: i32, bx: i32, by: i32) -> (clear: bool)
        requires
            self@.sized(),
            self@.in_bounds(ax as int, ay as int),
            self@.in_bounds(bx as int, by as int),
        ensures
            clear == self@.clear_between(ax as int, ay as int, bx as int, by as int),
    {
        let n = chebyshev_distance(ax, ay, bx, by) as i32;
        let mut k: i32 = 1;
        while k < n
            invariant
                self@.sized(),
                self@.in_bounds(ax as int, ay as int),
                self@.in_bounds(bx as int, by as int),
                n == chebyshev(ax as int, ay as int, bx as int, by as int),
                1 <= k,
                forall|j: int|
                    0 < j < k ==> !#[trigger] self@.ray_blocked(
                        ax as int,
                        ay as int,
                        bx as int,
                        by as int,
                        j,
                    ),
            decreases n - k,
        {
            let x = ray_step(ax, bx, n, k);
            let y = ray_step(ay, by, n, k);
            let idx = self.xy_idx(x, y);
            if self.tiles[idx] == TileType::Wall {
                assert(self@.ray_blocked(ax as int, ay as int, bx as int, by as int, k as int));
                return false;
            }
            k += 1;
        }
        true
    }
}

/// Sight is symmetric: a tile that is seen from another, with some range,
/// sees that other tile with the same range.
pub proof fn lemma_sight_symmetric(map: TileMapView, ax: int, ay: int, bx: int, by: int, range: int)
    requires
        map.in_bounds(ax, ay),
        map.sees(ax, ay, range, bx, by),
    ensures
        map.sees(bx, by, range, ax, ay),
{
    let n = chebyshev(ax, ay, bx, by);
    assert(chebyshev(bx, by, ax, ay) == n);
    assert forall|k: int| 0 < k < n implies !#[trigger] map.ray_blocked(bx, by, ax, ay, k) by {
        lemma_ray_offset_reversed(bx - ax, n, n - k);
        lemma_ray_offset_reversed(by - ay, n, n - k);
        assert(ray_x(bx, by, ax, ay, k) == ray_x(ax, ay, bx, by, n - k));
        assert(ray_y(bx, by, ax, ay, k) == ray_y(ax, ay, bx, by, n - k));
        assert(!map.ray_blocked(ax, ay, bx, by, n - k));
    }
}

/// An actor has one field of view: two lists that both are the field of
/// view of the same actor on the same map are the same list.
pub proof fn lemma_field_of_view_unique(
    map: TileMapView,
    ax: int,
    ay: int,
    range: int,
    first: Seq<usize>,
    second: Seq<usize>,
)
    requires
        map.is_field_of_view(ax, ay, range, first),
        map.is_field_of_view(ax, ay, range, second),
    ensures
        first == second,
{
    assert forall|v: usize| first.contains(v) <==> second.contains(v) by {
        if first.contains(v) {
            let k = choose|k: int| 0 <= k < first.len() && first[k] == v;
            assert(map.sees_index(ax, ay, range, first[k] as int));
        }
        if second.contains(v) {
            let k = choose|k: int| 0 <= k < second.len() && second[k] == v;
            assert(map.sees_index(ax, ay, range, second[k] as int));
        }
    }
    lemma_increasing_unique(first, second);
}

} // verus!

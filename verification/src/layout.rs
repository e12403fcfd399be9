//! Laying out a map from a given list of rooms: the interiors of the rooms
//! and the corridors between them are opened in a grid of wall.

use vstd::prelude::*;
use crate::grid::{
    check_size,
    index_at,
    size_ok,
    tile_index,
    lemma_tile_index_bounds,
    lemma_tile_index_injective,
};
use crate::map::{
    TileMap,
    TileType,
    between,
    carved,
    carves,
    on_corridor,
    room_fits,
    rooms_apart,
    rooms_fit,
};
use crate::rect::Rect;

verus! {

/// A list of `n` copies of `value`.
fn filled<T: Copy>(value: T, n: usize) -> (v: Vec<T>)
    ensures
        v@.len() == n,
        forall|i: int| 0 <= i < n ==> v@[i] == value,
{
    let mut v: Vec<T> = Vec::new();
    let mut i: usize = 0;
    while i < n
        invariant
            i <= n,
            v@.len() == i,
            forall|k: int| 0 <= k < i ==> v@[k] == value,
        decreases n - i,
    {
        v.push(value);
        i += 1;
    }
    v
}

/// A list of `n` empty lists.
fn empty_lists(n: usize) -> (v: Vec<Vec<usize>>)
    ensures
        v@.len() == n,
        forall|i: int| 0 <= i < n ==> (#[trigger] v@[i])@.len() == 0,
{
    let mut v: Vec<Vec<usize>> = Vec::new();
    let mut i: usize = 0;
    while i < n
        invariant
            i <= n,
            v@.len() == i,
            forall|k: int| 0 <= k < i ==> (#[trigger] v@[k])@.len() == 0,
        decreases n - i,
    {
        v.push(Vec::new());
        i += 1;
    }
    v
}

/// Opens every tile of the box `x1..=x2` by `y1..=y2` that lies on the grid;
/// the part of the box outside the grid is cut off.
fn carve(tiles: &mut Vec<TileType>, width: i32, height: i32, x1: i32, y1: i32, x2: i32, y2: i32)
    requires
        size_ok(width as int, height as int),
        old(tiles)@.len() == width * height,
    ensures
        final(tiles)@.len() == old(tiles)@.len(),
        forall|x: int, y: int|
            0 <= x < width && 0 <= y < height ==> #[trigger] final(tiles)@[tile_index(
                width as int,
                x,
                y,
            )] == (if x1 <= x <= x2 && y1 <= y <= y2 {
                TileType::Floor
            } else {
                old(tiles)@[tile_index(width as int, x, y)]
            }),
{
    let x_lo: i32 = if x1 < 0 { 0 } else { x1 };
    let y_lo: i32 = if y1 < 0 { 0 } else { y1 };
    let x_hi: i32 = if x2 > width - 1 { width - 1 } else { x2 };
    let y_hi: i32 = if y2 > height - 1 { height - 1 } else { y2 };
    if x_lo > x_hi || y_lo > y_hi {
        return ;
    }
    let mut y: i32 = y_lo;
    while y <= y_hi
        invariant
            size_ok(width as int, height as int),
            tiles@.len() == width * height,
            0 <= x_lo <= x_hi < width,
            0 <= y_lo <= y <= y_hi + 1 <= height,
            x_lo == x1 || (x_lo == 0 && x1 < 0),
            x_hi == x2 || (x_hi == width - 1 && x2 >= width),
            y_lo == y1 || (y_lo == 0 && y1 < 0),
            y_hi == y2 || (y_hi == height - 1 && y2 >= height),
            forall|cx: int, cy: int|
                0 <= cx < width && 0 <= cy < height ==> #[trigger] tiles@[tile_index(
                    width as int,
                    cx,
                    cy,
                )] == (if x1 <= cx <= x2 && y1 <= cy <= y2 && cy < y {
                    TileType::Floor
                } else {
                    old(tiles)@[tile_index(width as int, cx, cy)]
                }),
        decreases y_hi + 1 - y,
    {
        let mut x: i32 = x_lo;
        while x <= x_hi
            invariant
                size_ok(width as int, height as int),
                tiles@.len() == width * height,
                0 <= x_lo <= x <= x_hi + 1 <= width,
                0 <= y_lo <= y <= y_hi < height,
                x_lo == x1 || (x_lo == 0 && x1 < 0),
                x_hi == x2 || (x_hi == width - 1 && x2 >= width),
                y_lo == y1 || (y_lo == 0 && y1 < 0),
                y_hi == y2 || (y_hi == height - 1 && y2 >= height),
                forall|cx: int, cy: int|
                    0 <= cx < width && 0 <= cy < height ==> #[trigger] tiles@[tile_index(
                        width as int,
                        cx,
                        cy,
                    )] == (if x1 <= cx <= x2 && y1 <= cy <= y2 && (cy < y || (cy == y && cx < x)) {
                        TileType::Floor
                    } else {
                        old(tiles)@[tile_index(width as int, cx, cy)]
                    }),
            decreases x_hi + 1 - x,
        {
            let idx = index_at(width, height, x, y);
            let ghost before = tiles@;
            tiles[idx] = TileType::Floor;
            proof {
                assert forall|cx: int, cy: int| 0 <= cx < width && 0 <= cy < height implies (
                #[trigger] tiles@[tile_index(width as int, cx, cy)]) == (if x1 <= cx <= x2 && y1
                    <= cy <= y2 && (cy < y || (cy == y && cx < x + 1)) {
                    TileType::Floor
                } else {
                    old(tiles)@[tile_index(width as int, cx, cy)]
                }) by {
                    lemma_tile_index_bounds(width as int, height as int, cx, cy);
                    if tile_index(width as int, cx, cy) == idx {
                        lemma_tile_index_injective(width as int, cx, cy, x as int, y as int);
                    } else {
                        assert(tiles@[tile_index(width as int, cx, cy)] == before[tile_index(
                            width as int,
                            cx,
                            cy,
                        )]);
                    }
                }
            }
            x += 1;
        }
        y += 1;
    }
}

/// Opens the interior of `room`.
fn apply_room_to_map(tiles: &mut Vec<TileType>, width: i32, height: i32, room: &Rect)
    requires
        size_ok(width as int, height as int),
        old(tiles)@.len() == width * height,
        room.x1 < i32::MAX,
        room.y1 < i32::MAX,
    ensures
        final(tiles)@.len() == old(tiles)@.len(),
        forall|x: int, y: int|
            0 <= x < width && 0 <= y < height ==> #[trigger] final(tiles)@[tile_index(
                width as int,
                x,
                y,
            )] == (if room.contains(x, y) {
                TileType::Floor
            } else {
                old(tiles)@[tile_index(width as int, x, y)]
            }),
{
    carve(tiles, width, height, room.x1 + 1, room.y1 + 1, room.x2, room.y2);
}

/// Opens row `y` from column `x1` to column `x2`, in either order.
fn apply_horizontal_tunnel(tiles: &mut Vec<TileType>, width: i32, height: i32, x1: i32, x2: i32, y: i32)
    requires
        size_ok(width as int, height as int),
        old(tiles)@.len() == width * height,
    ensures
        final(tiles)@.len() == old(tiles)@.len(),
        forall|cx: int, cy: int|
            0 <= cx < width && 0 <= cy < height ==> #[trigger] final(tiles)@[tile_index(
                width as int,
                cx,
                cy,
            )] == (if cy == y && between(x1 as int, x2 as int, cx) {
                TileType::Floor
            } else {
                old(tiles)@[tile_index(width as int, cx, cy)]
            }),
{
    if x1 <= x2 {
        carve(tiles, width, height, x1, y, x2, y);
    } else {
        carve(tiles, width, height, x2, y, x1, y);
    }
}

/// Opens column `x` from row `y1` to row `y2`, in either order.
fn apply_vertical_tunnel(tiles: &mut Vec<TileType>, width: i32, height: i32, y1: i32, y2: i32, x: i32)
    requires
        size_ok(width as int, height as int),
        old(tiles)@.len() == width * height,
    ensures
        final(tiles)@.len() == old(tiles)@.len(),
        forall|cx: int, cy: int|
            0 <= cx < width && 0 <= cy < height ==> #[trigger] final(tiles)@[tile_index(
                width as int,
                cx,
                cy,
            )] == (if cx == x && between(y1 as int, y2 as int, cy) {
                TileType::Floor
            } else {
                old(tiles)@[tile_index(width as int, cx, cy)]
            }),
{
    if y1 <= y2 {
        carve(tiles, width, height, x, y1, x, y2);
    } else {
        carve(tiles, width, height, x, y2, x, y1);
    }
}

/// Opens the corridor from the center of `prev` to the center of `next`.
fn apply_corridor(
    tiles: &mut Vec<TileType>,
    width: i32,
    height: i32,
    prev: &Rect,
    next: &Rect,
    horizontal_first: bool,
)
    requires
        size_ok(width as int, height as int),
        old(tiles)@.len() == width * height,
    ensures
        final(tiles)@.len() == old(tiles)@.len(),
        forall|x: int, y: int|
            0 <= x < width && 0 <= y < height ==> #[trigger] final(tiles)@[tile_index(
                width as int,
                x,
                y,
            )] == (if on_corridor(*prev, *next, horizontal_first, x, y) {
                TileType::Floor
            } else {
                old(tiles)@[tile_index(width as int, x, y)]
            }),
{
    let (prev_x, prev_y) = prev.center();
    let (new_x, new_y) = next.center();
    if horizontal_first {
        apply_horizontal_tunnel(tiles, width, height, prev_x, new_x, prev_y);
        apply_vertical_tunnel(tiles, width, height, prev_y, new_y, new_x);
    } else {
        apply_vertical_tunnel(tiles, width, height, prev_y, new_y, prev_x);
        apply_horizontal_tunnel(tiles, width, height, prev_x, new_x, new_y);
    }
}

/// Whether every room fits on a map of this size.
fn check_rooms_fit(width: i32, height: i32, rooms: &Vec<Rect>) -> (ok: bool)
    ensures
        ok == rooms_fit(width as int, height as int, rooms@),
{
    let mut i: usize = 0;
    while i < rooms.len()
        invariant
            i <= rooms.len(),
            rooms_fit(width as int, height as int, rooms@.take(i as int)),
        decreases rooms.len() - i,
    {
        let r = rooms[i];
        let fits = 0 <= r.x1 && r.x1 < i32::MAX - 1 && r.x1 + 2 <= r.x2 && r.x2 < width && 0 <= r.y1
            && r.y1 < i32::MAX - 1 && r.y1 + 2 <= r.y2 && r.y2 < height;
        if !fits {
            assert(rooms@[i as int] == r);
            return false;
        }
        assert forall|k: int| 0 <= k < i + 1 implies room_fits(
            width as int,
            height as int,
            #[trigger] rooms@.take(i + 1)[k],
        ) by {
            if k < i {
                assert(rooms@.take(i as int)[k] == rooms@.take(i + 1)[k]);
            }
        }
        i += 1;
    }
    assert(rooms@.take(i as int) == rooms@);
    true
}

/// Whether no two of the rooms overlap.
fn check_rooms_apart(rooms: &Vec<Rect>) -> (ok: bool)
    ensures
        ok == rooms_apart(rooms@),
{
    let mut j: usize = 0;
    while j < rooms.len()
        invariant
            j <= rooms.len(),
            forall|a: int, b: int|
                0 <= a < b < j ==> !(#[trigger] rooms@[a]).overlaps(#[trigger] rooms@[b]),
        decreases rooms.len() - j,
    {
        let mut i: usize = 0;
        while i < j
            invariant
                i <= j < rooms.len(),
                forall|a: int, b: int|
                    0 <= a < b < j ==> !(#[trigger] rooms@[a]).overlaps(#[trigger] rooms@[b]),
                forall|a: int| 0 <= a < i ==> !(#[trigger] rooms@[a]).overlaps(rooms@[j as int]),
            decreases j - i,
        {
            if rooms[i].intersect(&rooms[j]) {
                return false;
            }
            i += 1;
        }
        j += 1;
    }
    true
}

/// What `TileMap::from_rooms` accepts: a grid that can be held, at least one
/// room, one bend per room, every room on the map and no two overlapping.
pub open spec fn layout_ok(width: int, height: int, rooms: Seq<Rect>, bends: Seq<bool>) -> bool {
    &&& size_ok(width, height)
    &&& rooms.len() >= 1
    &&& bends.len() == rooms.len()
    &&& rooms_fit(width, height, rooms)
    &&& rooms_apart(rooms)
}

impl TileMap {
    /// The map of the given size in which exactly the interiors of `rooms`
    /// are open, and the corridors that join each room to the one before it
    /// in the list; the corridor that arrives at room `k` runs along the row
    /// first when `bends[k]` is set. All flags start clear.
    ///
    /// Returns `None` when the size or the rooms are not acceptable.
    pub fn from_rooms(width: i32, height: i32, rooms: Vec<Rect>, bends: Vec<bool>) -> (made: Option<
        TileMap,
    >)
        ensures
            made is Some <==> layout_ok(width as int, height as int, rooms@, bends@),
            made matches Some(m) ==> {
                &&& m@.wf()
                &&& m@.width == width
                &&& m@.height == height
                &&& m@.rooms == rooms@
                &&& m@.laid_out_by(bends@)
                &&& m@.flags_clear()
            },
    {
        if !check_size(width, height) || rooms.len() < 1 || bends.len() != rooms.len() {
            return None;
        }
        if !check_rooms_fit(width, height, &rooms) || !check_rooms_apart(&rooms) {
            return None;
        }
        let area: usize = (width as usize) * (height as usize);
        let mut tiles: Vec<TileType> = filled(TileType::Wall, area);
        proof {
            assert forall|x: int, y: int| 0 <= x < width && 0 <= y < height implies (
            #[trigger] tiles@[tile_index(width as int, x, y)]) == TileType::Wall by {
                lemma_tile_index_bounds(width as int, height as int, x, y);
            }
        }
        let mut i: usize = 0;
        while i < rooms.len()
            invariant
                i <= rooms.len(),
                bends@.len() == rooms@.len(),
                size_ok(width as int, height as int),
                rooms_fit(width as int, height as int, rooms@),
                tiles@.len() == width * height,
                forall|x: int, y: int|
                    0 <= x < width && 0 <= y < height ==> #[trigger] tiles@[tile_index(
                        width as int,
                        x,
                        y,
                    )] == (if carved(rooms@, bends@, i as int, x, y) {
                        TileType::Floor
                    } else {
                        TileType::Wall
                    }),
            decreases rooms.len() - i,
        {
            let ghost before = tiles@;
            let room = rooms[i];
            assert(room == rooms@[i as int]);
            apply_room_to_map(&mut tiles, width, height, &room);
            let ghost opened = tiles@;
            if i >= 1 {
                let prev = rooms[i - 1];
                apply_corridor(&mut tiles, width, height, &prev, &room, bends[i]);
            }
            proof {
                assert forall|x: int, y: int| 0 <= x < width && 0 <= y < height implies (
                #[trigger] tiles@[tile_index(width as int, x, y)]) == (if carved(
                    rooms@,
                    bends@,
                    i + 1,
                    x,
                    y,
                ) {
                    TileType::Floor
                } else {
                    TileType::Wall
                }) by {
                    lemma_tile_index_bounds(width as int, height as int, x, y);
                    let t = tile_index(width as int, x, y);
                    let was = carved(rooms@, bends@, i as int, x, y);
                    let now = carves(rooms@, bends@, i as int, x, y);
                    assert(before[t] == (if was {
                        TileType::Floor
                    } else {
                        TileType::Wall
                    }));
                    assert(opened[t] == (if room.contains(x, y) {
                        TileType::Floor
                    } else {
                        before[t]
                    }));
                    assert(tiles@[t] == (if was || now {
                        TileType::Floor
                    } else {
                        TileType::Wall
                    }));
                    if carved(rooms@, bends@, i + 1, x, y) {
                        let k = choose|k: int| 0 <= k < i + 1 && #[trigger] carves(rooms@, bends@, k, x, y);
                        assert(k < i ==> was);
                    }
                }
            }
            i += 1;
        }
        let map = TileMap {
            tiles,
            rooms,
            width,
            height,
            revealed_tiles: filled(false, area),
            visible_tiles: filled(false, area),
            blocked: filled(false, area),
            tile_content: empty_lists(area),
        };
        proof {
            assert(map@.laid_out_by(bends@));
        }
        Some(map)
    }
}

} // verus!

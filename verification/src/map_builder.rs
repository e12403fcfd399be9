//! Generating a map: rooms of random size are placed at random, and the map
//! is laid out from the rooms that found a free place.

use vstd::prelude::*;
use crate::grid::{check_size, size_ok};
use crate::layout::layout_ok;
use crate::map::{TileMap, rooms_apart};
use crate::random::{range, roll_dice};
use crate::rect::Rect;
use rltk::RandomNumberGenerator;

verus! {

/// The parameters of a random map.
#[derive(Clone, Copy, Debug, PartialEq, Eq, Structural)]
pub struct MapConfig {
    /// How many placements are tried; nothing is tried when this is not positive.
    pub max_rooms: i32,
    /// The smallest width and height of a room.
    pub min_size: i32,
    /// The largest width and height of a room.
    pub max_size: i32,
    pub map_width: i32,
    pub map_height: i32,
}

impl MapConfig {
    /// A configuration is valid when the grid can be held, a room spans at
    /// least two tiles each way, and the largest room still leaves a tile
    /// of wall on every side of the map.
    pub open spec fn valid(&self) -> bool {
        &&& size_ok(self.map_width as int, self.map_height as int)
        &&& 2 <= self.min_size <= self.max_size
        &&& self.max_size + 2 <= self.map_width
        &&& self.max_size + 2 <= self.map_height
    }

    /// Whether `r` is a room that this configuration allows: of an allowed
    /// size, and with a tile of wall left between it and the map's edge.
    pub open spec fn allows(&self, r: Rect) -> bool {
        &&& 0 <= r.x1
        &&& 0 <= r.y1
        &&& self.min_size <= r.x2 - r.x1 <= self.max_size
        &&& self.min_size <= r.y2 - r.y1 <= self.max_size
        &&& r.x2 <= self.map_width - 2
        &&& r.y2 <= self.map_height - 2
    }

    /// The room that is placed when no placement was tried or kept: one of
    /// the smallest size in the top-left corner.
    pub open spec fn fallback_room(&self) -> Rect {
        Rect { x1: 0, y1: 0, x2: self.min_size, y2: self.min_size }
    }

    /// The most rooms a map of this configuration can have.
    pub open spec fn room_limit(&self) -> int {
        if self.max_rooms >= 1 {
            self.max_rooms as int
        } else {
            1
        }
    }

    /// The configuration with the given parameters, or `None` when they are
    /// not valid.
    pub fn new(max_rooms: i32, min_size: i32, max_size: i32, map_width: i32, map_height: i32) -> (made:
        Option<MapConfig>)
        ensures
            made == (if (MapConfig { max_rooms, min_size, max_size, map_width, map_height }).valid() {
                Some(MapConfig { max_rooms, min_size, max_size, map_width, map_height })
            } else {
                None
            }),
    {
        let config = MapConfig { max_rooms, min_size, max_size, map_width, map_height };
        if config.is_valid() {
            Some(config)
        } else {
            None
        }
    }

    /// Whether the configuration is valid.
    pub fn is_valid(&self) -> (ok: bool)
        ensures
            ok == self.valid(),
    {
        check_size(self.map_width, self.map_height) && 2 <= self.min_size && self.min_size
            <= self.max_size && self.max_size <= self.map_width - 2 && self.max_size
            <= self.map_height - 2
    }

    /// Eighty by fifty tiles, thirty placements, rooms six to nine tiles wide
    /// and high.
    pub open spec fn standard_spec() -> MapConfig {
        MapConfig { max_rooms: 30, min_size: 6, max_size: 9, map_width: 80, map_height: 50 }
    }

    /// The standard configuration.
    #[verifier::when_used_as_spec(standard_spec)]
    pub fn standard() -> (config: MapConfig)
        ensures
            config == MapConfig::standard_spec(),
            config.valid(),
    {
        MapConfig { max_rooms: 30, min_size: 6, max_size: 9, map_width: 80, map_height: 50 }
    }
}

/// Whether `candidate` overlaps none of `rooms`.
pub open spec fn clear_of(rooms: Seq<Rect>, candidate: Rect) -> bool {
    forall|i: int| 0 <= i < rooms.len() ==> !candidate.overlaps(#[trigger] rooms[i])
}

/// Whether `candidate` can join `rooms`: it overlaps none of them.
pub fn fits_among(rooms: &Vec<Rect>, candidate: &Rect) -> (ok: bool)
    ensures
        ok == clear_of(rooms@, *candidate),
{
    let mut i: usize = 0;
    while i < rooms.len()
        invariant
            i <= rooms.len(),
            forall|k: int| 0 <= k < i ==> !candidate.overlaps(#[trigger] rooms@[k]),
        decreases rooms.len() - i,
    {
        if candidate.intersect(&rooms[i]) {
            return false;
        }
        i += 1;
    }
    true
}

/// The room that one placement proposes, from the width and height drawn
/// and the two dice rolled for its place: a roll of one puts the room
/// against the left or the top edge of the map.
pub fn candidate_room(config: &MapConfig, w: i32, h: i32, roll_x: i32, roll_y: i32) -> (room: Rect)
    requires
        config.valid(),
        config.min_size <= w <= config.max_size,
        config.min_size <= h <= config.max_size,
        1 <= roll_x <= config.map_width - w - 1,
        1 <= roll_y <= config.map_height - h - 1,
    ensures
        room.x1 == roll_x - 1,
        room.y1 == roll_y - 1,
        room.x2 == roll_x - 1 + w,
        room.y2 == roll_y - 1 + h,
        config.allows(room),
{
    Rect::new(roll_x - 1, roll_y - 1, w, h)
}

/// Keeps `candidate` when it overlaps none of the rooms kept so far: it
/// joins the end of `rooms`, with a corridor that is not horizontal first
/// for now. A candidate that overlaps a kept room is dropped, and nothing
/// changes.
pub fn keep_if_clear(rooms: &mut Vec<Rect>, bends: &mut Vec<bool>, candidate: Rect) -> (kept: bool)
    ensures
        kept == clear_of(old(rooms)@, candidate),
        kept ==> final(rooms)@ == old(rooms)@.push(candidate) && final(bends)@ == old(bends)@.push(
            false,
        ),
        !kept ==> final(rooms)@ == old(rooms)@ && final(bends)@ == old(bends)@,
{
    if fits_among(rooms, &candidate) {
        rooms.push(candidate);
        bends.push(false);
        true
    } else {
        false
    }
}

/// Sets the bend of the corridor of the room kept last from a coin of two
/// sides: a one makes the corridor horizontal first.
pub fn bend_last(bends: &mut Vec<bool>, coin: i32)
    requires
        old(bends)@.len() >= 1,
    ensures
        final(bends)@ == old(bends)@.update(old(bends)@.len() - 1, coin == 1),
{
    let last = bends.len() - 1;
    bends[last] = coin == 1;
}

/// Places rooms at random. Up to `max_rooms` times a width, a height and
/// two dice are drawn; `candidate_room` makes a room of them and
/// `keep_if_clear` keeps or drops it. For each kept room but the first a
/// coin is drawn, and `bend_last` sets the bend of its corridor. When no
/// room was kept, the fallback room is placed.
///
/// Which rooms come out depends on the generator. Whatever it draws, the
/// result is acceptable to `TileMap::from_rooms`; without a placement the
/// result is the fallback room alone.
pub fn place_rooms(config: &MapConfig, rng: &mut RandomNumberGenerator) -> (placed: (
    Vec<Rect>,
    Vec<bool>,
))
    requires
        config.valid(),
    ensures
        layout_ok(config.map_width as int, config.map_height as int, placed.0@, placed.1@),
        placed.0@.len() <= config.room_limit(),
        forall|i: int| 0 <= i < placed.0@.len() ==> config.allows(#[trigger] placed.0@[i]),
        config.max_rooms <= 0 ==> placed.0@ == seq![config.fallback_room()] && placed.1@
            == seq![false],
{
    let mut rooms: Vec<Rect> = Vec::new();
    let mut bends: Vec<bool> = Vec::new();
    let mut attempt: i32 = 0;
    while attempt < config.max_rooms
        invariant
            config.valid(),
            0 <= attempt,
            rooms@.len() <= attempt,
            attempt <= config.max_rooms || rooms@.len() == 0,
            bends@.len() == rooms@.len(),
            rooms_apart(rooms@),
            forall|i: int| 0 <= i < rooms@.len() ==> config.allows(#[trigger] rooms@[i]),
        decreases config.max_rooms - attempt,
    {
        let w = range(rng, config.min_size, config.max_size + 1);
        let h = range(rng, config.min_size, config.max_size + 1);
        let roll_x = roll_dice(rng, 1, config.map_width - w - 1);
        let roll_y = roll_dice(rng, 1, config.map_height - h - 1);
        let candidate = candidate_room(config, w, h, roll_x, roll_y);
        let first = rooms.len() == 0;
        let kept = keep_if_clear(&mut rooms, &mut bends, candidate);
        if kept && !first {
            let coin = range(rng, 0, 2);
            bend_last(&mut bends, coin);
        }
        attempt += 1;
    }
    if rooms.len() == 0 {
        rooms.push(fallback(config));
        bends.push(false);
    }
    (rooms, bends)
}

/// The room that is placed when no placement was tried or kept.
pub fn fallback(config: &MapConfig) -> (room: Rect)
    requires
        config.valid(),
    ensures
        room == config.fallback_room(),
        config.allows(room),
{
    Rect::new(0, 0, config.min_size, config.min_size)
}

impl TileMap {
    /// A random map: rooms placed by `place_rooms`, opened and joined by
    /// `from_rooms`.
    pub fn generate(config: &MapConfig, rng: &mut RandomNumberGenerator) -> (map: TileMap)
        requires
            config.valid(),
        ensures
            map@.wf(),
            map@.width == config.map_width,
            map@.height == config.map_height,
            map@.flags_clear(),
            map@.rooms.len() <= config.room_limit(),
            forall|i: int| 0 <= i < map@.rooms.len() ==> config.allows(#[trigger] map@.rooms[i]),
            config.max_rooms <= 0 ==> map@.rooms == seq![config.fallback_room()] && map@.laid_out_by(
                seq![false],
            ),
    {
        let (rooms, bends) = place_rooms(config, rng);
        let made = TileMap::from_rooms(config.map_width, config.map_height, rooms, bends);
        made.unwrap()
    }

    /// A random map of the standard configuration.
    pub fn new_map_rooms_and_corridors(rng: &mut RandomNumberGenerator) -> (map: TileMap)
        ensures
            map@.wf(),
            map@.width == 80,
            map@.height == 50,
            map@.flags_clear(),
            map@.rooms.len() <= 30,
            forall|i: int|
                0 <= i < map@.rooms.len() ==> MapConfig::standard().allows(#[trigger] map@.rooms[i]),
    {
        let config = MapConfig::standard();
        TileMap::generate(&config, rng)
    }
}

} // verus!

//! The second stage of a turn: every monster that sees the player takes one
//! step toward the player, if a step is open to it.

use vstd::prelude::*;
use crate::components::{
    Actor,
    ActorView,
    Position,
    Role,
    Viewshed,
    actor_views,
    actors_on_map,
    blockers_apart,
    one_player,
    player_of,
    same_cast,
    find_player,
    lemma_player_kept,
};
use crate::map::{TileMap, TileMapView};
use crate::movement::{can_enter, may_enter, with_move, lemma_move_keeps_order};
use crate::sight::{abs, chebyshev, span};

verus! {

/// One tile from `from` toward `target` along one axis; `from` itself when
/// the two agree on that axis.
pub open spec fn toward(from: int, target: int) -> int {
    if target > from {
        from + 1
    } else if target < from {
        from - 1
    } else {
        from
    }
}

/// Whether the step along the row comes first: the columns differ at least
/// as much as the rows. On a tie the row wins.
pub open spec fn prefers_row(from: Position, target: Position) -> bool {
    abs(target.x - from.x) >= abs(target.y - from.y)
}

/// The tile next to `from` along its row, toward `target`.
pub open spec fn step_in_row(from: Position, target: Position) -> Position {
    Position { x: toward(from.x as int, target.x as int) as i32, y: from.y }
}

/// The tile next to `from` along its column, toward `target`.
pub open spec fn step_in_column(from: Position, target: Position) -> Position {
    Position { x: from.x, y: toward(from.y as int, target.y as int) as i32 }
}

/// The step that brings `from` nearest to `target` in Chebyshev distance: it
/// shortens the larger of the two coordinate differences. There is none
/// when `from` is `target`.
pub open spec fn first_choice(from: Position, target: Position) -> Option<Position> {
    if from == target {
        None
    } else if prefers_row(from, target) {
        Some(step_in_row(from, target))
    } else {
        Some(step_in_column(from, target))
    }
}

/// The step that shortens the smaller of the two coordinate differences.
/// There is none when that difference is zero.
pub open spec fn second_choice(from: Position, target: Position) -> Option<Position> {
    if prefers_row(from, target) {
        if from.y != target.y {
            Some(step_in_column(from, target))
        } else {
            None
        }
    } else {
        if from.x != target.x {
            Some(step_in_row(from, target))
        } else {
            None
        }
    }
}

/// Whether actor `who` may take the step `step`, if there is one.
pub open spec fn open_to(
    map: TileMapView,
    actors: Seq<ActorView>,
    who: int,
    step: Option<Position>,
) -> bool {
    step matches Some(to) && can_enter(map, actors, who, to)
}

/// The step that actor `who` takes toward `target`: its first choice when
/// that may be entered, else its second choice when that may be entered,
/// else none.
pub open spec fn chase_step(
    map: TileMapView,
    actors: Seq<ActorView>,
    who: int,
    target: Position,
) -> Option<Position> {
    let from = actors[who].position;
    if open_to(map, actors, who, first_choice(from, target)) {
        first_choice(from, target)
    } else if open_to(map, actors, who, second_choice(from, target)) {
        second_choice(from, target)
    } else {
        None
    }
}

/// Whether actor `who` is a monster that has the player's tile in its
/// viewshed.
pub open spec fn aware(map: TileMapView, actors: Seq<ActorView>, who: int) -> bool {
    &&& actors[who].is_monster()
    &&& actors[who].viewshed.visible_tiles.contains(actors[player_of(actors)].tile(map) as usize)
}

/// The list of actors after actor `who` has had its turn: an aware monster
/// with a step open to it has taken the step and has its viewshed marked
/// stale; otherwise nothing has changed.
pub open spec fn after_turn_of(map: TileMapView, actors: Seq<ActorView>, who: int) -> Seq<
    ActorView,
> {
    if aware(map, actors, who) {
        match chase_step(map, actors, who, actors[player_of(actors)].position) {
            Some(to) => with_move(actors, who, to),
            None => actors,
        }
    } else {
        actors
    }
}

/// The list of actors after the first `n` of them have had their turns, one
/// after the other.
pub open spec fn after_turns(map: TileMapView, actors: Seq<ActorView>, n: nat) -> Seq<ActorView>
    decreases n,
{
    if n == 0 {
        actors
    } else {
        after_turn_of(map, after_turns(map, actors, (n - 1) as nat), n - 1)
    }
}

/// Turns keep the cast and the player's position; they keep every actor on
/// the map, and the actors that block on tiles of their own.
pub proof fn lemma_turns_keep_order(map: TileMapView, actors: Seq<ActorView>, n: nat)
    requires
        one_player(actors),
        n <= actors.len(),
    ensures
        same_cast(actors, after_turns(map, actors, n)),
        one_player(after_turns(map, actors, n)),
        player_of(after_turns(map, actors, n)) == player_of(actors),
        after_turns(map, actors, n)[player_of(actors)].position == actors[player_of(
            actors,
        )].position,
        forall|i: int|
            n <= i < actors.len() ==> #[trigger] after_turns(map, actors, n)[i] == actors[i],
        actors_on_map(map, actors) ==> actors_on_map(map, after_turns(map, actors, n)),
        blockers_apart(actors) ==> blockers_apart(after_turns(map, actors, n)),
    decreases n,
{
    lemma_player_kept(actors, actors);
    if n > 0 {
        let prev = after_turns(map, actors, (n - 1) as nat);
        lemma_turns_keep_order(map, actors, (n - 1) as nat);
        let who = n - 1;
        let now = after_turn_of(map, prev, who);
        assert(now == after_turns(map, actors, n));
        if aware(map, prev, who) {
            match chase_step(map, prev, who, prev[player_of(prev)].position) {
                Some(to) => {
                    lemma_move_keeps_order(map, prev, who, to);
                    assert(who != player_of(actors));
                    assert forall|i: int| 0 <= i < actors.len() implies (#[trigger] now[i]).role
                        == actors[i].role && now[i].blocks_tile == actors[i].blocks_tile
                        && now[i].viewshed.range == actors[i].viewshed.range by {
                        assert(prev[i].role == actors[i].role);
                    }
                },
                None => {},
            }
        }
        lemma_player_kept(actors, now);
    }
}

/// A monster that sees the player and is not on a diagonal with the player
/// comes one tile nearer, in Chebyshev distance, when its first choice may
/// be entered. On a straight line to the player, along a row or a column,
/// this holds turn after turn, until the next tile of the line may not be
/// entered.
pub proof fn lemma_chase_approaches(map: TileMapView, actors: Seq<ActorView>, who: int)
    requires
        one_player(actors),
        0 <= who < actors.len(),
        aware(map, actors, who),
        ({
            let from = actors[who].position;
            let target = actors[player_of(actors)].position;
            &&& abs(target.x - from.x) != abs(target.y - from.y)
            &&& open_to(map, actors, who, first_choice(from, target))
        }),
    ensures
        ({
            let from = actors[who].position;
            let to = after_turn_of(map, actors, who)[who].position;
            let target = actors[player_of(actors)].position;
            chebyshev(to.x as int, to.y as int, target.x as int, target.y as int) == chebyshev(
                from.x as int,
                from.y as int,
                target.x as int,
                target.y as int,
            ) - 1
        }),
{
}

/// Turns depend on the map's size, tiles and blocked flags only.
pub proof fn lemma_turns_same_ground(a: TileMapView, b: TileMapView, actors: Seq<ActorView>, n: nat)
    requires
        a.same_geometry(b),
        a.blocked == b.blocked,
    ensures
        after_turns(a, actors, n) == after_turns(b, actors, n),
    decreases n,
{
    if n > 0 {
        lemma_turns_same_ground(a, b, actors, (n - 1) as nat);
        let prev = after_turns(a, actors, (n - 1) as nat);
        let who = n - 1;
        let target = prev[player_of(prev)].position;
        let from = prev[who].position;
        assert forall|to: Position| can_enter(a, prev, who, to) == can_enter(b, prev, who, to) by {}
        assert(open_to(a, prev, who, first_choice(from, target)) == open_to(
            b,
            prev,
            who,
            first_choice(from, target),
        ));
        assert(open_to(a, prev, who, second_choice(from, target)) == open_to(
            b,
            prev,
            who,
            second_choice(from, target),
        ));
        assert(chase_step(a, prev, who, target) == chase_step(b, prev, who, target));
        assert(aware(a, prev, who) == aware(b, prev, who));
    }
}

impl Viewshed {
    /// Whether the tile with index `idx` is among the visible tiles.
    pub fn sees_tile(&self, idx: usize) -> (found: bool)
        ensures
            found == self@.visible_tiles.contains(idx),
    {
        let mut k: usize = 0;
        while k < self.visible_tiles.len()
            invariant
                k <= self.visible_tiles@.len(),
                forall|j: int| 0 <= j < k ==> self.visible_tiles@[j] != idx,
            decreases self.visible_tiles@.len() - k,
        {
            if self.visible_tiles[k] == idx {
                return true;
            }
            k += 1;
        }
        false
    }
}

fn step_toward(from: i32, target: i32) -> (at: i32)
    ensures
        at == toward(from as int, target as int),
{
    if target > from {
        from + 1
    } else if target < from {
        from - 1
    } else {
        from
    }
}

/// The step that actor `who` takes toward `target`, if one is open to it.
pub fn choose_step(map: &TileMap, actors: &Vec<Actor>, who: usize, target: Position) -> (step:
    Option<Position>)
    requires
        map@.sized(),
        who < actors@.len(),
    ensures
        step == chase_step(map@, actor_views(actors@), who as int, target),
{
    let from = actors[who].position;
    assert(actor_views(actors@)[who as int] == actors@[who as int]@);
    if from.x == target.x && from.y == target.y {
        return None;
    }
    let in_row = Position { x: step_toward(from.x, target.x), y: from.y };
    let in_column = Position { x: from.x, y: step_toward(from.y, target.y) };
    let row_first = span(from.x, target.x) >= span(from.y, target.y);
    let (first, second, has_second) = if row_first {
        (in_row, in_column, from.y != target.y)
    } else {
        (in_column, in_row, from.x != target.x)
    };
    if may_enter(map, actors, who, first) {
        Some(first)
    } else if has_second && may_enter(map, actors, who, second) {
        Some(second)
    } else {
        None
    }
}

/// The stage of a turn in which the monsters act.
pub struct MonsterAI {}

impl MonsterAI {
    /// Gives every actor its turn, in the order of the list. A monster that
    /// has the player's tile in its viewshed steps toward the player when a
    /// step is open to it, and its viewshed is then marked stale. Every
    /// other actor is left as it was.
    pub fn run(&mut self, map: &TileMap, actors: &mut Vec<Actor>)
        requires
            map@.sized(),
            actors_on_map(map@, actor_views(old(actors)@)),
            one_player(actor_views(old(actors)@)),
        ensures
            actor_views(final(actors)@) == after_turns(
                map@,
                actor_views(old(actors)@),
                old(actors)@.len(),
            ),
    {
        let ghost cast = actor_views(old(actors)@);
        let p = find_player(actors);
        let target = actors[p].position;
        proof {
            assert(cast[p as int] == old(actors)@[p as int]@);
        }
        let target_idx = map.xy_idx(target.x, target.y);
        let mut i: usize = 0;
        while i < actors.len()
            invariant
                i <= actors@.len(),
                actors@.len() == cast.len(),
                map@.sized(),
                one_player(cast),
                actors_on_map(map@, cast),
                p == player_of(cast),
                target == cast[p as int].position,
                target_idx == cast[p as int].tile(map@),
                actor_views(actors@) == after_turns(map@, cast, i as nat),
            decreases actors@.len() - i,
        {
            let ghost prev = actor_views(actors@);
            proof {
                lemma_turns_keep_order(map@, cast, i as nat);
                assert(prev[i as int] == actors@[i as int]@);
            }
            let is_monster = match actors[i].role {
                Role::Player => false,
                Role::Monster(_) => true,
            };
            if is_monster && actors[i].viewshed.sees_tile(target_idx) {
                match choose_step(map, actors, i, target) {
                    Some(to) => {
                        actors[i].position = to;
                        actors[i].viewshed.dirty = true;
                        proof {
                            assert(actor_views(actors@) =~= with_move(prev, i as int, to));
                        }
                    },
                    None => {},
                }
            }
            i += 1;
        }
    }
}

} // verus!

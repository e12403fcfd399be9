//! The actors of the dungeon and what each of them carries: a position, a
//! viewshed, a role and whether it blocks its tile.

use vstd::prelude::*;
use crate::map::{TileMap, TileMapView};

verus! {

/// Tile coordinates of an actor.
#[derive(Clone, Copy, Debug, PartialEq, Eq, Structural)]
pub struct Position {
    pub x: i32,
    pub y: i32,
}

/// What an actor currently sees: the indices of the visible tiles, the sight
/// range, and whether the list is stale and must be computed anew.
#[derive(Clone, Debug)]
pub struct Viewshed {
    pub visible_tiles: Vec<usize>,
    pub range: i32,
    pub dirty: bool,
}

/// The mathematical model of a `Viewshed`.
pub struct ViewshedView {
    pub visible_tiles: Seq<usize>,
    pub range: int,
    pub dirty: bool,
}

impl View for Viewshed {
    type V = ViewshedView;

    open spec fn view(&self) -> ViewshedView {
        ViewshedView {
            visible_tiles: self.visible_tiles@,
            range: self.range as int,
            dirty: self.dirty,
        }
    }
}

/// The kinds of monster.
#[derive(Clone, Copy, Debug, PartialEq, Eq, Structural)]
pub enum MonsterKind {
    Goblin,
    Orc,
}

/// An actor is either the player or a monster of some kind.
#[derive(Clone, Copy, Debug, PartialEq, Eq, Structural)]
pub enum Role {
    Player,
    Monster(MonsterKind),
}

/// One actor. Actors are kept in a list, and an actor's place in that list
/// is its identifier.
#[derive(Clone, Debug)]
pub struct Actor {
    pub position: Position,
    pub viewshed: Viewshed,
    pub role: Role,
    pub blocks_tile: bool,
}

/// The mathematical model of an `Actor`.
pub struct ActorView {
    pub position: Position,
    pub viewshed: ViewshedView,
    pub role: Role,
    pub blocks_tile: bool,
}

impl View for Actor {
    type V = ActorView;

    open spec fn view(&self) -> ActorView {
        ActorView {
            position: self.position,
            viewshed: self.viewshed@,
            role: self.role,
            blocks_tile: self.blocks_tile,
        }
    }
}

/// The models of a list of actors, one by one.
pub open spec fn actor_views(actors: Seq<Actor>) -> Seq<ActorView> {
    Seq::new(actors.len(), |i: int| actors[i]@)
}

impl ActorView {
    /// Whether the actor is the player.
    pub open spec fn is_player(self) -> bool {
        self.role == Role::Player
    }

    /// Whether the actor is a monster, of whatever kind.
    pub open spec fn is_monster(self) -> bool {
        self.role != Role::Player
    }

    /// The index of the tile that the actor stands on.
    pub open spec fn tile(self, map: TileMapView) -> int {
        map.index_of(self.position.x as int, self.position.y as int)
    }

    /// The actor with its position changed to `to` and its viewshed marked
    /// stale.
    pub open spec fn moved_to(self, to: Position) -> ActorView {
        ActorView {
            position: to,
            viewshed: ViewshedView { dirty: true, ..self.viewshed },
            ..self
        }
    }
}

/// Every actor stands on the map.
pub open spec fn actors_on_map(map: TileMapView, actors: Seq<ActorView>) -> bool {
    forall|i: int|
        0 <= i < actors.len() ==> map.in_bounds(
            (#[trigger] actors[i]).position.x as int,
            actors[i].position.y as int,
        )
}

/// Exactly one of the actors is the player.
pub open spec fn one_player(actors: Seq<ActorView>) -> bool {
    exists|p: int|
        0 <= p < actors.len() && (#[trigger] actors[p]).is_player() && forall|q: int|
            0 <= q < actors.len() && (#[trigger] actors[q]).is_player() ==> q == p
}

/// The place of the player in the list.
pub open spec fn player_of(actors: Seq<ActorView>) -> int {
    choose|p: int| 0 <= p < actors.len() && (#[trigger] actors[p]).is_player()
}

/// No two actors that block their tile stand on the same tile.
pub open spec fn blockers_apart(actors: Seq<ActorView>) -> bool {
    forall|i: int, j: int|
        0 <= i < j < actors.len() && (#[trigger] actors[i]).blocks_tile && (
        #[trigger] actors[j]).blocks_tile ==> actors[i].position != actors[j].position
}

/// The two lists hold the same actors in the same roles.
pub open spec fn same_cast(before: Seq<ActorView>, after: Seq<ActorView>) -> bool {
    &&& after.len() == before.len()
    &&& forall|i: int|
        0 <= i < before.len() ==> (#[trigger] after[i]).role == before[i].role && after[i].blocks_tile
            == before[i].blocks_tile && after[i].viewshed.range == before[i].viewshed.range
}

/// With exactly one player, any actor that is the player is `player_of`.
pub proof fn lemma_player_unique(actors: Seq<ActorView>, q: int)
    requires
        one_player(actors),
        0 <= q < actors.len(),
        actors[q].is_player(),
    ensures
        q == player_of(actors),
        0 <= player_of(actors) < actors.len(),
        actors[player_of(actors)].is_player(),
{
}

/// The player stays the player while the cast stays the same.
pub proof fn lemma_player_kept(before: Seq<ActorView>, after: Seq<ActorView>)
    requires
        one_player(before),
        same_cast(before, after),
    ensures
        one_player(after),
        player_of(after) == player_of(before),
        0 <= player_of(before) < before.len(),
{
    let p = player_of(before);
    assert(after[p].is_player());
    assert forall|q: int| 0 <= q < after.len() && (#[trigger] after[q]).is_player() implies q
        == p by {
        assert(before[q].is_player());
    }
    lemma_player_unique(after, p);
}

/// Where the player stands in the list of actors.
pub fn find_player(actors: &Vec<Actor>) -> (p: usize)
    requires
        one_player(actor_views(actors@)),
    ensures
        p == player_of(actor_views(actors@)),
        p < actors@.len(),
{
    let ghost cast = actor_views(actors@);
    let mut i: usize = 0;
    while i < actors.len()
        invariant
            i <= actors@.len(),
            cast == actor_views(actors@),
            one_player(cast),
            forall|k: int| 0 <= k < i ==> !(#[trigger] cast[k]).is_player(),
        decreases actors@.len() - i,
    {
        let found = match actors[i].role {
            Role::Player => true,
            Role::Monster(_) => false,
        };
        assert(cast[i as int] == actors@[i as int]@);
        if found {
            proof {
                lemma_player_unique(cast, i as int);
            }
            return i;
        }
        i += 1;
    }
    proof {
        lemma_player_kept(cast, cast);
        assert(cast[player_of(cast)].is_player());
    }
    0
}

/// Whether every actor stands on the map.
pub fn all_on_map(map: &TileMap, actors: &Vec<Actor>) -> (ok: bool)
    ensures
        ok == actors_on_map(map@, actor_views(actors@)),
{
    let ghost cast = actor_views(actors@);
    let mut i: usize = 0;
    while i < actors.len()
        invariant
            i <= actors@.len(),
            cast == actor_views(actors@),
            forall|k: int|
                0 <= k < i ==> map@.in_bounds(
                    (#[trigger] cast[k]).position.x as int,
                    cast[k].position.y as int,
                ),
        decreases actors@.len() - i,
    {
        assert(cast[i as int] == actors@[i as int]@);
        if !map.in_bounds(actors[i].position.x, actors[i].position.y) {
            return false;
        }
        i += 1;
    }
    true
}

/// Whether exactly one of the actors is the player.
pub fn has_one_player(actors: &Vec<Actor>) -> (ok: bool)
    ensures
        ok == one_player(actor_views(actors@)),
{
    let ghost cast = actor_views(actors@);
    let mut found: Option<usize> = None;
    let mut i: usize = 0;
    while i < actors.len()
        invariant
            i <= actors@.len(),
            cast == actor_views(actors@),
            match found {
                Some(p) => p < i && cast[p as int].is_player() && forall|k: int|
                    0 <= k < i && (#[trigger] cast[k]).is_player() ==> k == p,
                None => forall|k: int| 0 <= k < i ==> !(#[trigger] cast[k]).is_player(),
            },
        decreases actors@.len() - i,
    {
        assert(cast[i as int] == actors@[i as int]@);
        let is_player = match actors[i].role {
            Role::Player => true,
            Role::Monster(_) => false,
        };
        if is_player {
            if found.is_some() {
                proof {
                    let p = found->0 as int;
                    if one_player(cast) {
                        lemma_player_unique(cast, p);
                        lemma_player_unique(cast, i as int);
                    }
                }
                return false;
            }
            found = Some(i);
        }
        i += 1;
    }
    found.is_some()
}

} // verus!

//! The game state and the turn: the three stages run in a fixed order, and
//! the state alternates between waiting for the player and running a turn.

use vstd::prelude::*;
use crate::components::{
    Actor,
    ActorView,
    actor_views,
    actors_on_map,
    all_on_map,
    blockers_apart,
    has_one_player,
    one_player,
    player_of,
    same_cast,
    lemma_player_kept,
};
use crate::grid::lemma_tile_index_injective;
use crate::map::{TileMap, TileMapView, lemma_wf_same_geometry};
use crate::map_builder::MapConfig;
use crate::map_indexing_system::{MapIndexingSystem, lists_occupants};
use crate::monster_ai_system::{
    MonsterAI,
    after_turns,
    lemma_turns_keep_order,
    lemma_turns_same_ground,
};
use crate::player::{PlayerAction, act, after_player_action, lemma_player_action_keeps_order};
use crate::spawner::{spawn_actors, starting_cast};
use crate::visibility_system::{VisibilitySystem, refreshed};
use rltk::RandomNumberGenerator;

verus! {

/// Whether the game waits for the player or is about to run a turn.
#[derive(Clone, Copy, Debug, PartialEq, Eq, Structural)]
pub enum RunState {
    Paused,
    Running,
}

/// The whole game: the map, the actors and the run state.
pub struct State {
    pub map: TileMap,
    pub actors: Vec<Actor>,
    pub runstate: RunState,
}

/// The mathematical model of a `State`.
pub struct StateView {
    pub map: TileMapView,
    pub actors: Seq<ActorView>,
    pub runstate: RunState,
}

impl View for State {
    type V = StateView;

    open spec fn view(&self) -> StateView {
        StateView { map: self.map@, actors: actor_views(self.actors@), runstate: self.runstate }
    }
}

impl StateView {
    /// What a turn needs of the game: the map has its size, every actor
    /// stands on it, and exactly one actor is the player.
    pub open spec fn playable(self) -> bool {
        &&& self.map.sized()
        &&& actors_on_map(self.map, self.actors)
        &&& one_player(self.actors)
    }

    /// Well-formedness of the game: it is playable, the map is well-formed,
    /// and no two actors that block stand on the same tile.
    pub open spec fn wf(self) -> bool {
        &&& self.playable()
        &&& self.map.wf()
        &&& blockers_apart(self.actors)
    }

    /// Whether `after` holds the map and the actors of this state after
    /// one turn, in which the visibility stage made `looked` of the actors:
    /// every stale viewshed was computed anew; the map shows what the player
    /// then saw; the actors had their turns one after the other, on the map
    /// as it was indexed before the turn; and at last the map's index was
    /// built anew from where the actors then stood.
    pub open spec fn turn_ran(self, looked: Seq<ActorView>, after: StateView) -> bool {
        &&& looked.len() == self.actors.len()
        &&& forall|i: int|
            0 <= i < self.actors.len() ==> refreshed(self.map, self.actors[i], #[trigger] looked[i])
        &&& after.actors == after_turns(self.map, looked, looked.len())
        &&& (TileMapView {
            blocked: self.map.blocked,
            tile_content: self.map.tile_content,
            ..after.map
        }).shows(self.map, looked[player_of(self.actors)].viewshed.visible_tiles)
        &&& after.map.sized()
        &&& after.map.indexes(after.actors)
    }
}

impl State {
    /// A new game on a random map, with the starting cast, about to run its
    /// first turn.
    pub fn new(config: &MapConfig, rng: &mut RandomNumberGenerator) -> (state: State)
        requires
            config.valid(),
        ensures
            state@.wf(),
            state@.runstate == RunState::Running,
            state@.map.width == config.map_width,
            state@.map.height == config.map_height,
            state@.map.flags_clear(),
            state@.map.rooms.len() <= config.room_limit(),
            forall|i: int|
                0 <= i < state@.map.rooms.len() ==> config.allows(#[trigger] state@.map.rooms[i]),
            config.max_rooms <= 0 ==> state@.map.rooms == seq![config.fallback_room()],
            starting_cast(state@.map, state@.actors),
    {
        let map = TileMap::generate(config, rng);
        let actors = spawn_actors(&map, rng);
        State { map, actors, runstate: RunState::Running }
    }

    /// Whether a turn can be run on this state.
    pub fn is_playable(&self) -> (ok: bool)
        ensures
            ok == self@.playable(),
    {
        self.map.is_sized() && all_on_map(&self.map, &self.actors) && has_one_player(&self.actors)
    }

    /// Runs one turn: the visibility stage, then the monsters, then the
    /// map's index. A well-formed game stays well-formed.
    pub fn run_systems(&mut self)
        requires
            old(self)@.playable(),
        ensures
            final(self)@.playable(),
            old(self)@.wf() ==> final(self)@.wf(),
            final(self)@.map.same_geometry(old(self)@.map),
            same_cast(old(self)@.actors, final(self)@.actors),
            exists|looked: Seq<ActorView>| #[trigger] old(self)@.turn_ran(looked, final(self)@),
            final(self)@.runstate == old(self)@.runstate,
            forall|idx: int|
                0 <= idx < old(self)@.map.area() && old(self)@.map.revealed_tiles[idx]
                    ==> #[trigger] final(self)@.map.revealed_tiles[idx],
    {
        let ghost before = self@;
        let mut vis = VisibilitySystem {};
        vis.run(&mut self.map, &mut self.actors);
        let ghost looked = actor_views(self.actors@);
        let ghost shown = self.map@;
        proof {
            assert forall|i: int| 0 <= i < before.actors.len() implies refreshed(
                before.map,
                before.actors[i],
                #[trigger] looked[i],
            ) by {
                assert(refreshed(before.map, old(self).actors@[i]@, self.actors@[i]@));
            }
            assert(same_cast(before.actors, looked));
            lemma_player_kept(before.actors, looked);
            assert(actors_on_map(shown, looked));
        }
        let mut mob = MonsterAI {};
        mob.run(&self.map, &mut self.actors);
        proof {
            lemma_turns_keep_order(shown, looked, looked.len());
            lemma_turns_same_ground(shown, before.map, looked, looked.len());
            lemma_player_kept(before.actors, actor_views(self.actors@));
        }
        let mut mapindex = MapIndexingSystem {};
        mapindex.run(&mut self.map, &self.actors);
        proof {
            if before.wf() {
                lemma_wf_same_geometry(before.map, self@.map);
            }
            assert((TileMapView {
                blocked: before.map.blocked,
                tile_content: before.map.tile_content,
                ..self@.map
            }) == shown);
            assert(before.turn_ran(looked, self@));
        }
    }

    /// One tick of the game. A state that is running runs one turn and then
    /// waits for the player; the action is not looked at. A state that is
    /// paused carries out the player's action, if there is one, and is then
    /// running; with no action it stays as it is. A well-formed game stays
    /// well-formed.
    pub fn tick(&mut self, action: Option<PlayerAction>)
        requires
            old(self)@.playable(),
        ensures
            final(self)@.playable(),
            old(self)@.wf() ==> final(self)@.wf(),
            final(self)@.map.same_geometry(old(self)@.map),
            same_cast(old(self)@.actors, final(self)@.actors),
            forall|idx: int|
                0 <= idx < old(self)@.map.area() && old(self)@.map.revealed_tiles[idx]
                    ==> #[trigger] final(self)@.map.revealed_tiles[idx],
            old(self)@.runstate == RunState::Running ==> final(self)@.runstate == RunState::Paused
                && exists|looked: Seq<ActorView>| #[trigger] old(self)@.turn_ran(looked, final(self)@),
            old(self)@.runstate == RunState::Paused ==> final(self)@ == (match action {
                Some(a) => StateView {
                    actors: after_player_action(old(self)@.map, old(self)@.actors, a),
                    runstate: RunState::Running,
                    ..old(self)@
                },
                None => old(self)@,
            }),
    {
        match self.runstate {
            RunState::Running => {
                self.run_systems();
                let ghost ran = self@;
                self.runstate = RunState::Paused;
                proof {
                    let looked = choose|looked: Seq<ActorView>| #[trigger]
                        old(self)@.turn_ran(looked, ran);
                    assert(old(self)@.turn_ran(looked, self@));
                }
            },
            RunState::Paused => {
                match action {
                    Some(a) => {
                        act(a, &self.map, &mut self.actors);
                        self.runstate = RunState::Running;
                        proof {
                            lemma_player_action_keeps_order(old(self)@.map, old(self)@.actors, a);
                        }
                    },
                    None => {},
                }
            },
        }
    }
}

/// In a well-formed game whose index is current, no tile lists more than
/// one actor that blocks.
pub proof fn lemma_one_blocker_per_tile(state: StateView, idx: int, i: usize, j: usize)
    requires
        state.wf(),
        state.map.indexes(state.actors),
        0 <= idx < state.map.area(),
        state.map.tile_content[idx].contains(i),
        state.map.tile_content[idx].contains(j),
        state.actors[i as int].blocks_tile,
        state.actors[j as int].blocks_tile,
    ensures
        i == j,
{
    let map = state.map;
    let actors = state.actors;
    let content = map.tile_content[idx];
    assert(lists_occupants(map, actors, actors.len() as int, idx, content));
    let ki = choose|k: int| 0 <= k < content.len() && content[k] == i;
    let kj = choose|k: int| 0 <= k < content.len() && content[k] == j;
    assert(content[ki] < actors.len() && actors[i as int].tile(map) == idx);
    assert(content[kj] < actors.len() && actors[j as int].tile(map) == idx);
    let a = actors[i as int];
    let b = actors[j as int];
    lemma_tile_index_injective(
        map.width,
        a.position.x as int,
        a.position.y as int,
        b.position.x as int,
        b.position.y as int,
    );
    assert(a.position == b.position);
}

} // verus!

//! The things that live in the world: the player, the ants, the scouts, and
//! the bursts of particles that announce a marker.

use vstd::prelude::*;
use crate::ants::{Ant, AntState};
use crate::food::{field_wf, holds_id, item_of, without, Food, FoodID};
use crate::hive::Hive;
use crate::markers::{Marker, MARKER_RENDER_RAD};
use crate::maths::{gen_range, random_angle, PI, TAU};
use crate::particles::{Burst, ParticleStyle, Particles};
use crate::player::Player;
use crate::resources::{Color, COL_MARKER_FOOD, COL_MARKER_HOME};
use crate::scout::Scout;
use crate::vector::{mag, magnitude, Vec2};
use crate::world::{Land, World};

verus! {

/// World units per second, which is thousandths of a unit per thousandth of
/// a second.
pub const ANT_SPEED: i32 = 15;

pub const PLAYER_SPEED: i32 = 45;

pub const PLAYER_RAD: i32 = 4000;

pub const PLAYER_PICKUP_RANGE: i32 = 8000;

pub const ANT_RAD: i32 = 3200;

/// How fast the sway moves the point an ant steers for, in units per second.
pub const ANT_TURN_SPEED: i32 = 8;

/// The share of the way to the angle steered for that a roaming ant turns
/// in a second, in thousandths.
pub const ANT_WANDER_TURN_SPEED: i32 = 800;

/// How far an agent walks between two markers it leaves.
pub const ANT_MARKER_DIST: i32 = 15000;

pub const ANT_FOOD_DETECTION_RANGE: i32 = 35200;

pub const ANT_FOOD_PICKUP_RANGE: i32 = 3200;

pub const ANT_HOME_DEPOSIT_RANGE: i32 = 22400;

pub const HOME_MARKER_LIFE: i32 = 60000;

pub const FOOD_MARKER_LIFE: i32 = 35000;

/// The largest distance from the origin, along either axis, that a scout
/// keeps to.
pub const HARD_BOUND: i32 = 750000;

/// The time between two changes of an agent's target, before the jitter.
pub const TARGET_CHANGE_COOLDOWN: i32 = 1000;

/// One chance in this many that a new ant is a scout.
pub const SCOUT_ODDS: i32 = 10;

/// What a tick takes from the player: the direction steered in, a vector of
/// length one thousand or the zero vector, and whether the key that changes
/// the kind of marker dropped was pressed.
#[derive(Debug, Clone, Copy)]
pub struct Input {
    pub dir: Vec2,
    pub cycle_marker: bool,
}

/// What a tick takes from chance.
#[derive(Debug, Clone, Copy)]
pub struct Chance {
    /// An angle in `[0, TAU)`: the course of an ant that starts to roam.
    pub angle: i32,
    /// A time from one second up to three: until a roaming ant next changes
    /// its course.
    pub timer: i32,
    /// An angle in `[-PI, PI)`: the new sway.
    pub sway: i32,
    /// An angle in `[-TAU, TAU)`: the new course.
    pub course: i32,
    /// A time under a tenth of a second, added to the target cooldown.
    pub jitter: i32,
    /// A distance from three to ten marker spacings: how far off a scout's
    /// next target lies.
    pub reach: i32,
}

impl Chance {
    /// Whether every number is within its bounds.
    pub open spec fn wf(&self) -> bool {
        &&& 0 <= self.angle < TAU
        &&& 1000 <= self.timer < 3000
        &&& -PI <= self.sway < PI
        &&& -TAU <= self.course < TAU
        &&& 0 <= self.jitter < 100
        &&& 3 * ANT_MARKER_DIST <= self.reach < 10 * ANT_MARKER_DIST
    }

    /// Draws the numbers of one tick.
    pub fn draw() -> (c: Chance)
        ensures
            c.wf(),
    {
        Chance {
            angle: random_angle(),
            timer: gen_range(1000, 3000),
            sway: gen_range(0, TAU) - PI,
            course: 2 * (gen_range(0, TAU) - PI),
            jitter: gen_range(0, 100),
            reach: gen_range(3 * ANT_MARKER_DIST, 10 * ANT_MARKER_DIST),
        }
    }
}

/// The way round an obstacle: the displacement that `translate_collidable`
/// applies to an agent at `pos` that wants to move by `delta`, none where it
/// stalls. The whole of `delta` where that leads to a free place; else its
/// part along one axis, the longer of the two that lead to a free place, the
/// one along the y axis where both are as long.
pub open spec fn slide(land: Land, pos: Vec2, delta: Vec2) -> Option<Vec2> {
    let along_x = Vec2 { x: delta.x, y: 0 };
    let along_y = Vec2 { x: 0, y: delta.y };
    if !land.blocked(pos.plus(delta)) {
        Some(delta)
    } else if !land.blocked(pos.plus(along_x)) && !land.blocked(pos.plus(along_y)) {
        if mag(delta.x as int) > mag(delta.y as int) {
            Some(along_x)
        } else {
            Some(along_y)
        }
    } else if !land.blocked(pos.plus(along_x)) {
        Some(along_x)
    } else if !land.blocked(pos.plus(along_y)) {
        Some(along_y)
    } else {
        None
    }
}

/// Where an agent at `pos` stands after it wanted to move by `delta`.
pub open spec fn slid(land: Land, pos: Vec2, delta: Vec2) -> Vec2 {
    match slide(land, pos, delta) {
        Some(v) => pos.plus(v),
        None => pos,
    }
}

#[derive(Debug, Clone)]
pub enum Gobj {
    Player(Player),
    Ant(Ant),
    Scout(Scout),
    Particles(Particles),
}

/// An object as the rules read it.
pub enum Thing {
    Player(Player),
    Ant(Ant),
    Scout(Scout),
    Particles(Burst),
}

impl View for Gobj {
    type V = Thing;

    open spec fn view(&self) -> Thing {
        match self {
            Gobj::Player(p) => Thing::Player(*p),
            Gobj::Ant(a) => Thing::Ant(*a),
            Gobj::Scout(s) => Thing::Scout(*s),
            Gobj::Particles(p) => Thing::Particles(p@),
        }
    }
}

impl Thing {
    /// Whether this is the burst that announces the marker `m`: two
    /// particles in the Home colour for a Home marker, three in the Food
    /// colour for a Food marker, within half a marker's radius of the
    /// marker's place, with the life of a fresh marker of that kind.
    pub open spec fn announces(self, m: Marker) -> bool {
        &&& self matches Thing::Particles(p)
        &&& match m {
            Marker::Home(at, _) => p.is_burst(
                at,
                2,
                HOME_MARKER_LIFE as int,
                MARKER_RENDER_RAD / 2,
                COL_MARKER_HOME,
                ParticleStyle::Orbit(500, 30),
            ),
            Marker::Food(at, _) => p.is_burst(
                at,
                3,
                FOOD_MARKER_LIFE as int,
                MARKER_RENDER_RAD / 2,
                COL_MARKER_FOOD,
                ParticleStyle::Orbit(900, 60),
            ),
        }
    }

    /// Whether the object, if it is one that obstacles stop, stands in a
    /// free place.
    pub open spec fn placed_well(self, land: Land) -> bool {
        match self {
            Thing::Player(p) => !land.blocked(p.pos),
            Thing::Ant(a) => !land.blocked(a.pos),
            Thing::Scout(_) => true,
            Thing::Particles(_) => true,
        }
    }

    /// The object after a tick of the length `d` in `land`.
    #[verifier::opaque]
    pub open spec fn stepped(self, land: Land, d: int, input: Input, chance: Chance) -> Thing {
        match self {
            Thing::Player(p) => Thing::Player(p.stepped(land, d, input)),
            Thing::Ant(a) => Thing::Ant(a.stepped(land, d, chance)),
            Thing::Scout(s) => Thing::Scout(s.stepped(d, chance)),
            Thing::Particles(p) => Thing::Particles(p.after(d)),
        }
    }

    /// The land after the object's tick.
    #[verifier::opaque]
    pub open spec fn land_after(self, land: Land, d: int, input: Input, chance: Chance) -> Land {
        match self {
            Thing::Player(p) => p.land_after(land, d, input),
            Thing::Ant(a) => a.land_after(land, d, chance),
            Thing::Scout(s) => s.land_after(land, d, chance),
            Thing::Particles(_) => land,
        }
    }

    /// The marker the object leaves in its tick.
    #[verifier::opaque]
    pub open spec fn dropped(self, land: Land, d: int, chance: Chance) -> Option<Marker> {
        match self {
            Thing::Player(p) => p.dropped(),
            Thing::Ant(a) => a.dropped(land, d, chance),
            Thing::Scout(s) => s.dropped(d, chance),
            Thing::Particles(_) => None,
        }
    }

    /// Whether the object lives on after a tick of the length `d`: all but
    /// a burst whose life has run out.
    pub open spec fn survives(self, d: int) -> bool {
        match self {
            Thing::Particles(p) => p.life - d > 0,
            _ => true,
        }
    }
}

impl Gobj {
    /// An object is well formed when, if it is a burst, the burst is.
    pub open spec fn wf(&self) -> bool {
        self matches Gobj::Particles(p) ==> p.wf()
    }

    /// The ant that a roll of `lot` out of a thousand makes at `pos`: a
    /// scout for the lowest tenth, else a forager that starts to roam.
    pub open spec fn ant_of(pos: Vec2, lot: int) -> Thing {
        if lot * SCOUT_ODDS < 1000 {
            Thing::Scout(Scout::at(pos))
        } else {
            Thing::Ant(Ant::at(pos))
        }
    }

    /// The ant that a roll of `lot` out of a thousand makes at `pos`.
    pub fn ant_from(pos: &Vec2, lot: i32) -> (g: Gobj)
        ensures
            g@ == Gobj::ant_of(*pos, lot as int),
            g.wf(),
    {
        if (lot as i64) * (SCOUT_ODDS as i64) < 1000 {
            Gobj::Scout(Scout::new(pos))
        } else {
            Gobj::Ant(Ant::new(pos))
        }
    }

    /// A new ant at `pos`: one in ten is a scout.
    pub fn new_ant(pos: &Vec2) -> (g: Gobj)
        ensures
            exists|lot: int| 0 <= lot < 1000 && g@ == #[trigger] Gobj::ant_of(*pos, lot),
            g.wf(),
    {
        let lot: i32 = gen_range(0, 1000);
        Gobj::ant_from(pos, lot)
    }

    /// The player at `pos`, dropping no markers and carrying nothing.
    pub fn new_player(pos: &Vec2) -> (g: Gobj)
        ensures
            g@ == Thing::Player(Player::at(*pos)),
            g.wf(),
    {
        Gobj::Player(Player::new(pos))
    }

    /// A burst of `count` particles round `pos`, each born at a chance point
    /// within `radius`.
    pub fn new_particles(
        pos: &Vec2,
        count: usize,
        life: i32,
        radius: i32,
        col: Color,
        style: ParticleStyle,
    ) -> (g: Gobj)
        ensures
            g.wf(),
            g@ matches Thing::Particles(p) && p.is_burst(
                *pos,
                count as int,
                life as int,
                radius as int,
                col,
                style,
            ),
    {
        Gobj::Particles(Particles::new(pos, count, life, radius, col, style))
    }

    /// Moves an agent at `pos` by `delta`, or as much of it as the obstacles
    /// allow, and returns whether anything was applied. Where the place
    /// `pos + delta` is blocked, the agent slides along the wall: it moves by
    /// the part of `delta` along one axis. Where that is blocked too, along
    /// both axes, it stays.
    pub fn translate_collidable(pos: &mut Vec2, delta: Vec2, world: &World) -> (moved: bool)
        requires
            world.wf(),
            !world@.blocked(*old(pos)),
        ensures
            moved == (slide(world@, *old(pos), delta) is Some),
            *final(pos) == slid(world@, *old(pos), delta),
            !world@.blocked(*final(pos)),
    {
        let whole = pos.add(delta);
        if !world.is_collision(&whole) {
            *pos = whole;
            return true;
        }
        let along_x = pos.add(Vec2 { x: delta.x, y: 0 });
        let along_y = pos.add(Vec2 { x: 0, y: delta.y });
        let free_x: bool = !world.is_collision(&along_x);
        let free_y: bool = !world.is_collision(&along_y);
        if free_x && free_y {
            if magnitude(delta.x as i64) > magnitude(delta.y as i64) {
                *pos = along_x;
            } else {
                *pos = along_y;
            }
            true
        } else if free_x {
            *pos = along_x;
            true
        } else if free_y {
            *pos = along_y;
            true
        } else {
            false
        }
    }

    /// Lets a time `d` pass for this object, with the numbers `chance` for
    /// what is left to chance, and returns whether the object lives on.
    pub fn advance(
        &mut self,
        world: &mut World,
        spawn_queue: &mut Vec<Gobj>,
        d: i32,
        input: &Input,
        chance: &Chance,
    ) -> (alive: bool)
        requires
            old(self).wf(),
            old(world).wf(),
            old(self)@.placed_well(old(world)@),
        ensures
            final(self).wf(),
            final(world).wf(),
            final(self)@.placed_well(final(world)@),
            final(self)@ == old(self)@.stepped(old(world)@, d as int, *input, *chance),
            final(world)@ == old(self)@.land_after(old(world)@, d as int, *input, *chance),
            alive == old(self)@.survives(d as int),
            crate::ants::queue_grown(
                old(spawn_queue)@,
                final(spawn_queue)@,
                old(world)@.markers,
                old(world)@.marker_size,
                old(self)@.dropped(old(world)@, d as int, *chance),
            ),
            final(world)@.collision == old(world)@.collision,
            final(world)@.map_tl == old(world)@.map_tl,
            final(world)@.marker_size == old(world)@.marker_size,
            final(world)@.food_size == old(world)@.food_size,
            final(world)@.food_issued == old(world)@.food_issued,
    {
        reveal(Thing::stepped);
        reveal(Thing::land_after);
        reveal(Thing::dropped);
        match self {
            Gobj::Player(p) => {
                p.step(world, spawn_queue, d, input);
                true
            },
            Gobj::Ant(a) => {
                a.step(world, spawn_queue, d, chance);
                true
            },
            Gobj::Scout(s) => {
                s.step(world, spawn_queue, d, chance);
                true
            },
            Gobj::Particles(p) => p.update(d),
        }
    }

    /// Lets a time `d` pass for this object, and returns whether the object
    /// lives on. What is left to chance is drawn here: the object is then
    /// what `advance` makes of it for some numbers within their bounds.
    pub fn update(&mut self, world: &mut World, spawn_queue: &mut Vec<Gobj>, d: i32, input: &Input) -> (alive:
        bool)
        requires
            old(self).wf(),
            old(world).wf(),
            old(self)@.placed_well(old(world)@),
        ensures
            final(self).wf(),
            final(world).wf(),
            final(self)@.placed_well(final(world)@),
            alive == old(self)@.survives(d as int),
            final(world)@.collision == old(world)@.collision,
            final(world)@.map_tl == old(world)@.map_tl,
            final(world)@.marker_size == old(world)@.marker_size,
            final(world)@.food_size == old(world)@.food_size,
            final(world)@.food_issued == old(world)@.food_issued,
            exists|chance: Chance|
                chance.wf() && final(self)@ == #[trigger] old(self)@.stepped(
                    old(world)@,
                    d as int,
                    *input,
                    chance,
                ) && final(world)@ == old(self)@.land_after(old(world)@, d as int, *input, chance)
                    && crate::ants::queue_grown(
                    old(spawn_queue)@,
                    final(spawn_queue)@,
                    old(world)@.markers,
                    old(world)@.marker_size,
                    old(self)@.dropped(old(world)@, d as int, chance),
                ),
    {
        let chance = Chance::draw();
        self.advance(world, spawn_queue, d, input, &chance)
    }

    /// A tick keeps the collision field, the corner of the map, the cell
    /// sizes of the fields, and the number given out last to a piece of
    /// food.
    pub proof fn lemma_tick_frame(thing: Thing, land: Land, d: int, input: Input, chance: Chance)
        ensures
            thing.land_after(land, d, input, chance).collision == land.collision,
            thing.land_after(land, d, input, chance).map_tl == land.map_tl,
            thing.land_after(land, d, input, chance).marker_size == land.marker_size,
            thing.land_after(land, d, input, chance).food_size == land.food_size,
            thing.land_after(land, d, input, chance).food_issued == land.food_issued,
    {
        reveal(Thing::land_after);
    }

    /// An ant's tick as an object of the game is the ant's own tick.
    pub proof fn lemma_ant_tick(a: Ant, land: Land, d: int, input: Input, chance: Chance)
        ensures
            Thing::Ant(a).stepped(land, d, input, chance) == Thing::Ant(a.stepped(land, d, chance)),
            Thing::Ant(a).land_after(land, d, input, chance) == a.land_after(land, d, chance),
            Thing::Ant(a).dropped(land, d, chance) == a.dropped(land, d, chance),
    {
        reveal(Thing::stepped);
        reveal(Thing::land_after);
        reveal(Thing::dropped);
    }

    /// The first leg of a forager's way, whatever chance draws: an ant put
    /// down to roam where a piece of food lies is on its way to that piece
    /// after one tick, and the piece is still in the field.
    pub proof fn lemma_forager_sets_out(
        a: Ant,
        land: Land,
        id: FoodID,
        d: int,
        input: Input,
        chance: Chance,
    )
        requires
            field_wf(land.food, land.food_size, land.food_issued),
            a.state is Wander,
            a.target == a.pos,
            holds_id(land.food, id),
            item_of(land.food, id).pos == a.pos,
        ensures
            Thing::Ant(a).stepped(land, d, input, chance) matches Thing::Ant(b) && b.state
                == AntState::GetFood(a.pos),
            holds_id(Thing::Ant(a).land_after(land, d, input, chance).food, id),
    {
        Self::lemma_ant_tick(a, land, d, input, chance);
        a.lemma_sets_out(land, id, d, chance);
    }

    /// The second leg: an ant on its way to food, within the pickup range of
    /// the place it goes for, takes the piece it sees out of the field and
    /// turns home with it.
    pub proof fn lemma_forager_picks_up(
        a: Ant,
        land: Land,
        id: FoodID,
        d: int,
        input: Input,
        chance: Chance,
    )
        requires
            a.state matches AntState::GetFood(at) && at.nearer(a.pos, ANT_FOOD_PICKUP_RANGE as int),
            crate::food::found(
                land.food,
                land.food_size,
                a.pos.plus(crate::ants::heading_of(a.pos, a.target)),
            ) == Some(id),
        ensures
            Thing::Ant(a).stepped(land, d, input, chance) matches Thing::Ant(b) && (
            b.state matches AntState::GoHome(f, _, _, _, _) && f == item_of(land.food, id)),
            Thing::Ant(a).land_after(land, d, input, chance).food == without(land.food, id),
            !holds_id(Thing::Ant(a).land_after(land, d, input, chance).food, id),
    {
        Self::lemma_ant_tick(a, land, d, input, chance);
        a.lemma_picks_up(land, id, d, chance);
    }

    /// The last leg: an ant that carries food, within the deposit range of
    /// the hive, hands it over and roams again. The hive gains five times
    /// the food's value, up to its cap: it has grown where the food was
    /// worth anything and the hive was not full. No gift of the player is
    /// noted.
    pub proof fn lemma_forager_delivers(
        a: Ant,
        land: Land,
        food: Food,
        d: int,
        input: Input,
        chance: Chance,
    )
        requires
            a.state matches AntState::GoHome(carried, _, _, _, _) && carried == food,
            a.pos.nearer(Vec2::origin(), ANT_HOME_DEPOSIT_RANGE as int),
        ensures
            Thing::Ant(a).stepped(land, d, input, chance) matches Thing::Ant(b) && b.state is Wander,
            Thing::Ant(a).land_after(land, d, input, chance).hive.life == Hive::fed(
                land.hive.life as int,
                food.value as int,
            ),
            Thing::Ant(a).land_after(land, d, input, chance).hive.player_gave
                == land.hive.player_gave,
            0 < food.value && land.hive.life < crate::hive::HIVE_MAX_LIFE ==> Thing::Ant(
                a,
            ).land_after(land, d, input, chance).hive.life > land.hive.life,
    {
        Self::lemma_ant_tick(a, land, d, input, chance);
        a.lemma_delivers(land, food, d, chance);
    }
}

} // verus!

//! The player's avatar: steered from outside, it drops the markers it is
//! told to, picks food up and brings it home.

use vstd::prelude::*;
use crate::ants::{food_marker_at, food_taken, hive_fed, home_marker_at, markers_left, queue_grown};
use crate::food::{found, item_of, Food, FoodID};
use crate::gobj::{
    slid, Gobj, Input, ANT_HOME_DEPOSIT_RANGE, ANT_MARKER_DIST, FOOD_MARKER_LIFE,
    HOME_MARKER_LIFE, PLAYER_PICKUP_RANGE, PLAYER_RAD, PLAYER_SPEED,
};
use crate::markers::Marker;
use crate::vector::{portion, sat, Vec2};
use crate::world::{Land, World};

verus! {

/// The player's avatar.
#[derive(PartialEq, Eq, Debug, Clone, Copy)]
pub struct Player {
    pub pos: Vec2,
    /// The kind of marker it drops, as a marker of that kind; none when it
    /// drops no markers.
    pub marker_type: Option<Marker>,
    /// Where it was when it last could have dropped a marker.
    pub last_marker_pos: Vec2,
    /// The piece of food it carries.
    pub carried_food: Option<Food>,
}

impl Player {
    /// The player at `pos`, dropping no markers and carrying nothing.
    pub open spec fn at(pos: Vec2) -> Player {
        Player { pos, marker_type: None, last_marker_pos: pos, carried_food: None }
    }

    /// The player put down at `pos`, all else as it is.
    pub open spec fn moved_to(self, pos: Vec2) -> Player {
        Player {
            pos,
            marker_type: self.marker_type,
            last_marker_pos: self.last_marker_pos,
            carried_food: self.carried_food,
        }
    }

    /// Whether the player has walked more than a marker spacing since its
    /// last marker.
    pub open spec fn due(self) -> bool {
        self.pos.farther(self.last_marker_pos, ANT_MARKER_DIST as int)
    }

    /// The marker the player drops in the tick: a fresh one of its kind
    /// where it stands, when one is due.
    pub open spec fn dropped(self) -> Option<Marker> {
        if self.due() {
            match self.marker_type {
                None => None,
                Some(Marker::Home(..)) => Some(home_marker_at(self.pos)),
                Some(Marker::Food(..)) => Some(food_marker_at(self.pos)),
            }
        } else {
            None
        }
    }

    /// The kind of marker the player drops after the tick: on request the
    /// next of none, Home, Food.
    pub open spec fn cycled(self, input: Input) -> Option<Marker> {
        if input.cycle_marker {
            match self.marker_type {
                None => Some(Marker::Home(self.pos, 0)),
                Some(Marker::Home(..)) => Some(Marker::Food(self.pos, 0)),
                Some(Marker::Food(..)) => None,
            }
        } else {
            self.marker_type
        }
    }

    /// The step the player wants to take: along the direction steered in,
    /// as long as its speed allows in the time `d`.
    pub open spec fn stride(d: int, input: Input) -> Vec2 {
        input.dir.times(sat(d * PLAYER_SPEED), 1000)
    }

    /// Where the player stands after the tick.
    pub open spec fn moved(self, land: Land, d: int, input: Input) -> Vec2 {
        slid(land, self.pos, Self::stride(d, input))
    }

    /// The number of the piece of food the player picks up in the tick: the
    /// nearest ahead of where it stands after its step, if it carries
    /// nothing and the piece lies within the pickup range.
    pub open spec fn pickup(self, land: Land, d: int, input: Input) -> Option<FoodID> {
        let pos = self.moved(land, d, input);
        match found(land.food, land.food_size, pos.plus(input.dir)) {
            Some(id) => if self.carried_food is None && item_of(land.food, id).pos.nearer(
                pos,
                PLAYER_PICKUP_RANGE as int,
            ) {
                Some(id)
            } else {
                None
            },
            None => None,
        }
    }

    /// The piece of food the player hands to the hive in the tick: the one
    /// it carries, if it picks nothing up and stands within the deposit
    /// range of the hive.
    pub open spec fn delivery(self, land: Land, d: int, input: Input) -> Option<Food> {
        if self.pickup(land, d, input) is None && self.carried_food is Some && self.moved(
            land,
            d,
            input,
        ).nearer(Vec2::origin(), ANT_HOME_DEPOSIT_RANGE as int) {
            self.carried_food
        } else {
            None
        }
    }

    /// The piece of food the player holds once it has picked up or handed
    /// over.
    pub open spec fn held(self, land: Land, d: int, input: Input) -> Option<Food> {
        match self.pickup(land, d, input) {
            Some(id) => Some(item_of(land.food, id)),
            None => if self.delivery(land, d, input) is Some {
                None
            } else {
                self.carried_food
            },
        }
    }

    /// The piece of food `f` drawn along behind a player at `pos`: towards
    /// the point one player's radius ahead of the player, twenty
    /// thousandths of the way for every thousandth of a second.
    pub open spec fn towed(f: Food, pos: Vec2, d: int, input: Input) -> Food {
        Food {
            pos: f.pos.mixed(pos.plus(input.dir.times(PLAYER_RAD as int, 1000)), sat(d * 20)),
            size: f.size,
            value: f.value,
            angle: f.angle,
            index: f.index,
        }
    }

    /// The player after a tick of the length `d` in `world`.
    pub open spec fn stepped(self, land: Land, d: int, input: Input) -> Player {
        let pos = self.moved(land, d, input);
        Player {
            pos,
            marker_type: self.cycled(input),
            last_marker_pos: if self.due() {
                self.pos
            } else {
                self.last_marker_pos
            },
            carried_food: match self.held(land, d, input) {
                Some(f) => Some(Self::towed(f, pos, d, input)),
                None => None,
            },
        }
    }

    /// The land after the player's tick: with the marker it dropped,
    /// without the piece of food it picked up, the hive fed with what it
    /// handed over.
    pub open spec fn land_after(self, land: Land, d: int, input: Input) -> Land {
        Land {
            food: food_taken(land.food, self.pickup(land, d, input)),
            food_size: land.food_size,
            food_issued: land.food_issued,
            markers: markers_left(land.markers, land.marker_size, self.dropped()),
            marker_size: land.marker_size,
            hive: hive_fed(land.hive, self.delivery(land, d, input), true),
            collision: land.collision,
            map_tl: land.map_tl,
        }
    }

    pub fn new(pos: &Vec2) -> (p: Player)
        ensures
            p == Player::at(*pos),
    {
        Player { pos: *pos, marker_type: None, last_marker_pos: *pos, carried_food: None }
    }

    /// Lets a time `d` pass for the player: it drops its marker, changes the
    /// kind of marker on request, moves, picks food up or hands it over, and
    /// draws what it carries along.
    pub fn step(&mut self, world: &mut World, spawn_queue: &mut Vec<Gobj>, d: i32, input: &Input)
        requires
            old(world).wf(),
            !old(world)@.blocked(old(self).pos),
        ensures
            final(world).wf(),
            !final(world)@.blocked(final(self).pos),
            *final(self) == old(self).stepped(old(world)@, d as int, *input),
            final(world)@ == old(self).land_after(old(world)@, d as int, *input),
            queue_grown(
                old(spawn_queue)@,
                final(spawn_queue)@,
                old(world)@.markers,
                old(world)@.marker_size,
                old(self).dropped(),
            ),
    {
        let ghost start = world@;
        if self.pos.beyond(self.last_marker_pos, ANT_MARKER_DIST) {
            match self.marker_type {
                None => {},
                Some(Marker::Home(..)) => {
                    world.marker.create_marker(Marker::Home(self.pos, HOME_MARKER_LIFE), spawn_queue);
                },
                Some(Marker::Food(..)) => {
                    world.marker.create_marker(Marker::Food(self.pos, FOOD_MARKER_LIFE), spawn_queue);
                },
            }
            self.last_marker_pos = self.pos;
        }
        if input.cycle_marker {
            self.marker_type = match self.marker_type {
                None => Some(Marker::Home(self.pos, 0)),
                Some(Marker::Home(..)) => Some(Marker::Food(self.pos, 0)),
                Some(Marker::Food(..)) => None,
            };
        }
        let stride = input.dir.scale(portion(d, PLAYER_SPEED, 1), 1000);
        assert(forall|p: Vec2| world@.blocked(p) == start.blocked(p));
        assert(forall|p: Vec2, v: Vec2|
            crate::gobj::slide(world@, p, v) == crate::gobj::slide(start, p, v));
        Gobj::translate_collidable(&mut self.pos, stride, world);
        let seen = crate::ants::Ant::sight(&world.food, &self.pos, &input.dir);
        let mut picked: bool = false;
        match seen {
            Some((id, f)) => {
                if self.carried_food.is_none() && f.pos.within(self.pos, PLAYER_PICKUP_RANGE) {
                    self.carried_food = world.food.take_food(id);
                    picked = true;
                }
            },
            None => {},
        }
        if !picked {
            match self.carried_food {
                Some(f) => {
                    if self.pos.within(Vec2::zero(), ANT_HOME_DEPOSIT_RANGE) {
                        world.hive.deposit(true, f.value);
                        self.carried_food = None;
                    }
                },
                None => {},
            }
        }
        match self.carried_food {
            Some(f) => {
                let ahead = self.pos.add(input.dir.scale(PLAYER_RAD, 1000));
                self.carried_food = Some(
                    Food {
                        pos: f.pos.lerp(ahead, portion(d, 20, 1)),
                        size: f.size,
                        value: f.value,
                        angle: f.angle,
                        index: f.index,
                    },
                );
            },
            None => {},
        }
    }
}

} // verus!

//! The scout: an ant that only explores, and lays a trail home.

use vstd::prelude::*;
use crate::ants::{home_marker_at, markers_left, queue_grown};
use crate::gobj::{
    Chance, Gobj, ANT_MARKER_DIST, ANT_SPEED, HARD_BOUND, HOME_MARKER_LIFE,
    TARGET_CHANGE_COOLDOWN,
};
use crate::markers::Marker;
use crate::maths::{ring, ring_point};
use crate::vector::{portion, sat, saturate, Vec2};
use crate::world::{Land, World};

verus! {

/// A scout.
#[derive(PartialEq, Eq, Debug, Clone, Copy)]
pub struct Scout {
    pub pos: Vec2,
    /// The point it walks towards.
    pub target: Vec2,
    /// The time until it picks its next target.
    pub target_change_cooldown: i32,
    /// Where it was when it last left a marker.
    pub last_marker_pos: Vec2,
}

/// `v` kept within the hard bound on either side of zero.
pub open spec fn bounded(v: int) -> int {
    if v > HARD_BOUND {
        HARD_BOUND as int
    } else if v < -HARD_BOUND {
        -HARD_BOUND as int
    } else {
        v
    }
}

impl Scout {
    /// A scout at `pos`, its target where it stands.
    pub open spec fn at(pos: Vec2) -> Scout {
        Scout { pos, target: pos, target_change_cooldown: 0, last_marker_pos: pos }
    }

    /// Where the scout starts the tick: its position, kept within the hard
    /// bounds of the world.
    pub open spec fn kept(self) -> Vec2 {
        Vec2 { x: bounded(self.pos.x as int) as i32, y: bounded(self.pos.y as int) as i32 }
    }

    /// The scout's target in the tick: a new one on the ring that chance
    /// picked when the cooldown has run out.
    pub open spec fn aimed(self, d: int, chance: Chance) -> Vec2 {
        if self.target_change_cooldown - d < 0 {
            ring(self.kept(), chance.angle as int, chance.reach as int)
        } else {
            self.target
        }
    }

    /// The scout after a tick of the length `d`: kept within the hard
    /// bounds, then moved towards its target as far as its speed allows.
    /// Obstacles do not stop it.
    pub open spec fn stepped(self, d: int, chance: Chance) -> Scout {
        let aim = self.aimed(d, chance);
        let pos = if self.kept() != aim {
            self.kept().plus(aim.minus(self.kept()).resized(sat(d * ANT_SPEED)))
        } else {
            self.kept()
        };
        Scout {
            pos,
            target: aim,
            target_change_cooldown: if self.target_change_cooldown - d < 0 {
                TARGET_CHANGE_COOLDOWN
            } else {
                sat(self.target_change_cooldown - d) as i32
            },
            last_marker_pos: if self.last_marker_pos.farther(pos, ANT_MARKER_DIST as int) {
                pos
            } else {
                self.last_marker_pos
            },
        }
    }

    /// The marker the scout leaves in the tick: a Home marker where it
    /// ends the tick, if that is more than a marker spacing from where it
    /// left the last.
    pub open spec fn dropped(self, d: int, chance: Chance) -> Option<Marker> {
        if self.last_marker_pos.farther(self.stepped(d, chance).pos, ANT_MARKER_DIST as int) {
            Some(home_marker_at(self.stepped(d, chance).pos))
        } else {
            None
        }
    }

    /// The land after the scout's tick: with the marker it left.
    pub open spec fn land_after(self, land: Land, d: int, chance: Chance) -> Land {
        Land {
            food: land.food,
            food_size: land.food_size,
            food_issued: land.food_issued,
            markers: markers_left(land.markers, land.marker_size, self.dropped(d, chance)),
            marker_size: land.marker_size,
            hive: land.hive,
            collision: land.collision,
            map_tl: land.map_tl,
        }
    }

    pub fn new(pos: &Vec2) -> (s: Scout)
        ensures
            s == Scout::at(*pos),
    {
        Scout { pos: *pos, target: *pos, target_change_cooldown: 0, last_marker_pos: *pos }
    }

    /// `v` kept within the hard bound.
    fn bound(v: i32) -> (r: i32)
        ensures
            r == bounded(v as int),
    {
        if v > HARD_BOUND {
            HARD_BOUND
        } else if v < -HARD_BOUND {
            -HARD_BOUND
        } else {
            v
        }
    }

    /// Lets a time `d` pass for the scout.
    pub fn step(&mut self, world: &mut World, spawn_queue: &mut Vec<Gobj>, d: i32, chance: &Chance)
        requires
            old(world).wf(),
        ensures
            final(world).wf(),
            *final(self) == old(self).stepped(d as int, *chance),
            final(world)@ == old(self).land_after(old(world)@, d as int, *chance),
            queue_grown(
                old(spawn_queue)@,
                final(spawn_queue)@,
                old(world)@.markers,
                old(world)@.marker_size,
                old(self).dropped(d as int, *chance),
            ),
    {
        self.pos = Vec2 { x: Self::bound(self.pos.x), y: Self::bound(self.pos.y) };
        let left: i64 = self.target_change_cooldown as i64 - d as i64;
        if left < 0 {
            self.target = ring_point(&self.pos, chance.angle, chance.reach);
            self.target_change_cooldown = TARGET_CHANGE_COOLDOWN;
        } else {
            self.target_change_cooldown = saturate(left);
        }
        if self.pos != self.target {
            self.pos = self.pos.add(self.target.sub(self.pos).resize(portion(d, ANT_SPEED, 1)));
        }
        if self.last_marker_pos.beyond(self.pos, ANT_MARKER_DIST) {
            world.marker.create_marker(Marker::Home(self.pos, HOME_MARKER_LIFE), spawn_queue);
            self.last_marker_pos = self.pos;
        }
    }
}

} // verus!

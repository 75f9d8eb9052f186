//! The foraging ant and its state machine.
//!
//! An ant roams until it sees food or a trail of Food markers, walks to the
//! food, takes it, and carries it home along the Home markers, leaving a
//! trail of its own behind.

use vstd::prelude::*;
use crate::food::{
    field_wf, found, holds_id, in_sight, is_found, item_of, lemma_found, lemma_item_at,
    lemma_some_found, lemma_take_once, no_later, rank, without, Food, FoodCells, FoodID, FoodWorld,
};
use crate::grid::{adjacent, cell_of, lemma_close_cells};
use crate::gobj::{
    slid, slide, Chance, Gobj, ANT_FOOD_DETECTION_RANGE, ANT_FOOD_PICKUP_RANGE,
    ANT_HOME_DEPOSIT_RANGE, ANT_MARKER_DIST, ANT_SPEED, ANT_TURN_SPEED, FOOD_MARKER_LIFE,
    HOME_MARKER_LIFE, TARGET_CHANGE_COOLDOWN,
};
use crate::hive::{Hive, DELIVERY_GAIN, HIVE_MAX_LIFE};
use crate::markers::{after_create, refuses, seen, Marker, MarkerCells, MarkerKind, MarkerWorld};
use crate::maths::{angle_lerp, angle_mix, atan2, bearing, cosine, sine};
use crate::vector::{
    closest, lemma_resized_within, mag, nearest, portion, sat, saturate, Vec2, UNIT,
};
use crate::world::{Land, World};

verus! {

#[derive(PartialEq, Eq, Debug, Clone, Copy)]
pub enum AntState {
    /// Roaming: the time left until the next change of course, the angle
    /// steered for, and the angle of the sway added to it.
    Wander(i32, i32, i32),
    /// Walking to food seen at this position.
    GetFood(Vec2),
    /// Walking along a trail of Food markers, to this one.
    Follow(Option<Marker>),
    /// Carrying food to the hive, by this marker if there is one; the last
    /// three are those of `Wander`, for the way without markers.
    GoHome(Food, Option<Marker>, i32, i32, i32),
}

/// A foraging ant.
#[derive(PartialEq, Eq, Debug, Clone, Copy)]
pub struct Ant {
    pub pos: Vec2,
    /// The point it walks towards.
    pub target: Vec2,
    /// The time until the target is next set anew.
    pub target_change_cooldown: i32,
    /// Where it was when it last left a marker.
    pub last_marker_pos: Vec2,
    pub state: AntState,
}

/// What an ant perceives at the start of a tick, one unit ahead of itself.
#[derive(PartialEq, Eq, Debug, Clone, Copy)]
pub struct Senses {
    /// The nearest piece of food and its number.
    pub food: Option<(FoodID, Food)>,
    /// The Food marker nearest to the ant, of those more than a marker
    /// spacing away.
    pub food_marker: Option<Marker>,
    /// The Home marker nearest to the hive, of those more than a marker
    /// spacing away from the ant.
    pub home_marker: Option<Marker>,
}

/// What an ant means to do in a tick.
#[derive(PartialEq, Eq, Debug, Clone, Copy)]
pub struct AntPlan {
    /// The state it ends the tick in.
    pub state: AntState,
    /// Its target once it has steered.
    pub target: Vec2,
    /// What its target becomes if the cooldown runs out in this tick.
    pub next_target: Vec2,
    /// The marker it leaves if it has walked far enough since the last.
    pub next_marker: Option<Marker>,
    /// The number of the piece of food it takes.
    pub pickup: Option<FoodID>,
    /// The piece of food it hands to the hive.
    pub delivery: Option<Food>,
}

/// The direction from `pos` to `target`, as a vector one unit long; zero
/// where the two are the same.
pub open spec fn heading_of(pos: Vec2, target: Vec2) -> Vec2 {
    target.minus(pos).resized(UNIT as int)
}

/// The markers more than a marker spacing away from `pos`.
pub open spec fn far_from(pos: Vec2) -> spec_fn(Marker) -> bool {
    |m: Marker| m.place().farther(pos, ANT_MARKER_DIST as int)
}

/// The place of a marker.
pub open spec fn places() -> spec_fn(Marker) -> Vec2 {
    |m: Marker| m.place()
}

/// The marker of `kind` that an agent at `pos` looking along `heading` goes
/// by: of those it sees that are more than a marker spacing away from it,
/// the one nearest to `reference`.
pub open spec fn beacon(
    cells: MarkerCells,
    size: int,
    pos: Vec2,
    heading: Vec2,
    kind: MarkerKind,
    reference: Vec2,
) -> Option<Marker> {
    let far = seen(cells, size, pos.plus(heading), Some(kind)).filter(far_from(pos));
    match nearest(far.map_values(places()), reference) {
        Some(i) => Some(far[i]),
        None => None,
    }
}

/// The piece of food that an agent at `pos` looking along `heading` sees:
/// the nearest to the point ahead, with its number.
pub open spec fn sighted(cells: FoodCells, size: int, pos: Vec2, heading: Vec2) -> Option<
    (FoodID, Food),
> {
    match found(cells, size, pos.plus(heading)) {
        Some(id) => Some((id, item_of(cells, id))),
        None => None,
    }
}

/// What an ant at `pos` looking along `heading` perceives: for Food markers
/// the ant itself is the point of reference, for Home markers the hive.
pub open spec fn senses_of(land: Land, pos: Vec2, heading: Vec2) -> Senses {
    Senses {
        food: sighted(land.food, land.food_size, pos, heading),
        food_marker: beacon(land.markers, land.marker_size, pos, heading, MarkerKind::Food, pos),
        home_marker: beacon(
            land.markers,
            land.marker_size,
            pos,
            heading,
            MarkerKind::Home,
            Vec2::origin(),
        ),
    }
}

/// The vector of length one thousand in the direction `angle`.
pub open spec fn unit(angle: int) -> Vec2 {
    Vec2 { x: cosine(angle) as i32, y: sine(angle) as i32 }
}

/// The point a roaming ant steers for after a time `d`: one unit from
/// itself, in a direction turned from that of its target towards the angle
/// `course`, and moved on by the sway.
pub open spec fn steered(pos: Vec2, target: Vec2, course: int, sway: int, d: int) -> Vec2 {
    let to = target.minus(pos);
    let turned = sat(angle_mix(bearing(to.y as int, to.x as int), course, sat((d * 4) / 5)));
    pos.plus(unit(turned)).plus(unit(sway).times(sat(d * ANT_TURN_SPEED), 1000))
}

/// The timer, course and sway of a roaming ant after a time `d`: new ones
/// from chance when the timer has run out.
pub open spec fn roamed(timer: int, course: int, sway: int, d: int, chance: Chance) -> (i32, i32, i32) {
    if timer - d < 0 {
        (chance.timer, chance.course, chance.sway)
    } else {
        (sat(timer - d) as i32, course as i32, sway as i32)
    }
}

/// The piece of food that an ant at `pos` notices: the one it perceives, if
/// that lies within the detection range.
pub open spec fn noticed(senses: Senses, pos: Vec2) -> Option<Food> {
    match senses.food {
        Some((_, f)) => if f.pos.nearer(pos, ANT_FOOD_DETECTION_RANGE as int) {
            Some(f)
        } else {
            None
        },
        None => None,
    }
}

/// A fresh Home marker at `pos`.
pub open spec fn home_marker_at(pos: Vec2) -> Marker {
    Marker::Home(pos, HOME_MARKER_LIFE)
}

/// A fresh Food marker at `pos`.
pub open spec fn food_marker_at(pos: Vec2) -> Marker {
    Marker::Food(pos, FOOD_MARKER_LIFE)
}

/// The state of an ant that starts to roam.
pub open spec fn roaming(chance: Chance) -> AntState {
    AntState::Wander(0, chance.angle, 0)
}

/// The hive after it was handed `delivery`, by an agent that is the player
/// or not.
pub open spec fn hive_fed(hive: Hive, delivery: Option<Food>, is_player: bool) -> Hive {
    match delivery {
        Some(f) => Hive {
            life: Hive::fed(hive.life as int, f.value as int) as i32,
            player_gave: hive.player_gave || is_player,
        },
        None => hive,
    }
}

/// The food field after the piece with the number `pickup` was taken.
pub open spec fn food_taken(cells: FoodCells, pickup: Option<FoodID>) -> FoodCells {
    match pickup {
        Some(id) => without(cells, id),
        None => cells,
    }
}

/// The marker field after an agent left the marker `dropped`.
pub open spec fn markers_left(cells: MarkerCells, size: int, dropped: Option<Marker>) -> MarkerCells {
    match dropped {
        Some(m) => after_create(cells, size, m),
        None => cells,
    }
}

/// Whether the spawn queue `after` is the queue `before` with the burst
/// behind it that announces the marker `dropped`, if one was left and the
/// field took it.
pub open spec fn queue_grown(
    before: Seq<Gobj>,
    after: Seq<Gobj>,
    cells: MarkerCells,
    size: int,
    dropped: Option<Marker>,
) -> bool {
    match dropped {
        Some(m) => if refuses(cells, size, m) {
            after == before
        } else {
            after.len() == before.len() + 1 && after.drop_last() == before && after.last()@.announces(
                m,
            ) && after.last().wf()
        },
        None => after == before,
    }
}

/// The point one unit ahead of an agent lies no further from it than a unit
/// along either axis.
proof fn lemma_ahead(pos: Vec2, target: Vec2)
    ensures
        -UNIT <= pos.plus(heading_of(pos, target)).x - pos.x <= UNIT,
        -UNIT <= pos.plus(heading_of(pos, target)).y - pos.y <= UNIT,
{
    lemma_resized_within(target.minus(pos), UNIT as int);
}

/// A point no further from the point ahead of an agent than the agent
/// itself lies within the detection range of the agent.
proof fn lemma_in_range(q: Vec2, p: Vec2, pos: Vec2)
    requires
        q.dist2(p) <= pos.dist2(p),
        -UNIT <= p.x - pos.x <= UNIT,
        -UNIT <= p.y - pos.y <= UNIT,
    ensures
        q.nearer(pos, ANT_FOOD_DETECTION_RANGE as int),
{
    let a = q.x - p.x;
    let b = q.y - p.y;
    let u = p.x - pos.x;
    let v = p.y - pos.y;
    assert(pos.dist2(p) == u * u + v * v) by (nonlinear_arith)
        requires
            pos.dist2(p) == (pos.x - p.x) * (pos.x - p.x) + (pos.y - p.y) * (pos.y - p.y),
            u == p.x - pos.x,
            v == p.y - pos.y,
    ;
    assert(q.dist2(pos) < 35200 * 35200) by (nonlinear_arith)
        requires
            a * a + b * b <= u * u + v * v,
            -1000 <= u <= 1000,
            -1000 <= v <= 1000,
            q.dist2(pos) == (a + u) * (a + u) + (b + v) * (b + v),
    {
        assert(u * u <= 1000000);
        assert(v * v <= 1000000);
        assert((a - u) * (a - u) >= 0);
        assert((b - v) * (b - v) >= 0);
        assert((a + u) * (a + u) <= 2 * (a * a) + 2 * (u * u));
        assert((b + v) * (b + v) <= 2 * (b * b) + 2 * (v * v));
    }
}

impl Ant {
    /// An ant at `pos` that starts to roam, its target where it stands.
    pub open spec fn at(pos: Vec2) -> Ant {
        Ant {
            pos,
            target: pos,
            target_change_cooldown: 0,
            last_marker_pos: pos,
            state: AntState::Wander(0, 0, 0),
        }
    }

    /// What the ant means to do in a tick of the length `d`, perceiving
    /// `senses`.
    ///
    /// Roaming, it steers on; food within the detection range sends it for
    /// the food, whatever markers it perceives; else a Food marker makes it
    /// follow that. On the way to food, it starts to roam again when it
    /// perceives no food at all; within the pickup range it takes the piece
    /// it perceives and turns home. Following a trail, food within the
    /// detection range sends it for the food; else it walks to its Food
    /// marker and goes by the one it perceives now, or starts to roam when it
    /// has none. Going home, within the deposit range of the hive it hands
    /// its food over and starts to roam; else it walks to its marker and
    /// goes by the Home marker it perceives now, or by the Food marker
    /// where it perceives no Home marker, and steers like a roaming ant when
    /// it has none.
    pub open spec fn intends(self, senses: Senses, d: int, chance: Chance) -> AntPlan {
        match self.state {
            AntState::Wander(timer, course, sway) => {
                let (t, c, s) = roamed(timer as int, course as int, sway as int, d, chance);
                let target = steered(self.pos, self.target, course as int, sway as int, d);
                match noticed(senses, self.pos) {
                    Some(f) => AntPlan {
                        state: AntState::GetFood(f.pos),
                        target,
                        next_target: self.target,
                        next_marker: Some(food_marker_at(self.pos)),
                        pickup: None,
                        delivery: None,
                    },
                    None => AntPlan {
                        state: if senses.food_marker is Some {
                            AntState::Follow(senses.food_marker)
                        } else {
                            AntState::Wander(t, c, s)
                        },
                        target,
                        next_target: self.target,
                        next_marker: Some(home_marker_at(self.pos)),
                        pickup: None,
                        delivery: None,
                    },
                }
            },
            AntState::GetFood(food_pos) => match senses.food {
                None => AntPlan {
                    state: roaming(chance),
                    target: self.target,
                    next_target: food_pos,
                    next_marker: None,
                    pickup: None,
                    delivery: None,
                },
                Some((id, f)) => if food_pos.nearer(self.pos, ANT_FOOD_PICKUP_RANGE as int) {
                    AntPlan {
                        state: AntState::GoHome(f, senses.home_marker, 0, 0, 0),
                        target: self.target,
                        next_target: food_pos,
                        next_marker: Some(food_marker_at(self.pos)),
                        pickup: Some(id),
                        delivery: None,
                    }
                } else {
                    AntPlan {
                        state: self.state,
                        target: self.target,
                        next_target: food_pos,
                        next_marker: Some(food_marker_at(self.pos)),
                        pickup: None,
                        delivery: None,
                    }
                },
            },
            AntState::Follow(m) => match noticed(senses, self.pos) {
                Some(f) => AntPlan {
                    state: AntState::GetFood(f.pos),
                    target: self.target,
                    next_target: self.target,
                    next_marker: Some(food_marker_at(self.pos)),
                    pickup: None,
                    delivery: None,
                },
                None => match m {
                    Some(Marker::Food(p, _)) => AntPlan {
                        state: AntState::Follow(senses.food_marker),
                        target: self.target,
                        next_target: p,
                        next_marker: Some(home_marker_at(self.pos)),
                        pickup: None,
                        delivery: None,
                    },
                    _ => AntPlan {
                        state: roaming(chance),
                        target: self.target,
                        next_target: self.target,
                        next_marker: Some(home_marker_at(self.pos)),
                        pickup: None,
                        delivery: None,
                    },
                },
            },
            AntState::GoHome(food, m, timer, course, sway) => if self.pos.nearer(
                Vec2::origin(),
                ANT_HOME_DEPOSIT_RANGE as int,
            ) {
                AntPlan {
                    state: roaming(chance),
                    target: self.target,
                    next_target: self.target,
                    next_marker: Some(food_marker_at(self.pos)),
                    pickup: None,
                    delivery: Some(food),
                }
            } else {
                let by = if senses.home_marker is Some {
                    senses.home_marker
                } else {
                    senses.food_marker
                };
                match m {
                    Some(marker) => AntPlan {
                        state: AntState::GoHome(food, by, timer, course, sway),
                        target: self.target,
                        next_target: marker.place(),
                        next_marker: Some(food_marker_at(self.pos)),
                        pickup: None,
                        delivery: None,
                    },
                    None => {
                        let (t, c, s) = roamed(timer as int, course as int, sway as int, d, chance);
                        AntPlan {
                            state: AntState::GoHome(food, by, t, c, s),
                            target: steered(self.pos, self.target, course as int, sway as int, d),
                            next_target: self.target,
                            next_marker: Some(food_marker_at(self.pos)),
                            pickup: None,
                            delivery: None,
                        }
                    },
                }
            },
        }
    }

    /// What the ant means to do in a tick of the length `d` in `world`.
    pub open spec fn planned(self, land: Land, d: int, chance: Chance) -> AntPlan {
        self.intends(senses_of(land, self.pos, heading_of(self.pos, self.target)), d, chance)
    }

    /// The ant's target once the cooldown has had its say: the plan's next
    /// target when it has run out, else the target steered for.
    pub open spec fn aimed(self, land: Land, d: int, chance: Chance) -> Vec2 {
        if self.target_change_cooldown - d < 0 {
            self.planned(land, d, chance).next_target
        } else {
            self.planned(land, d, chance).target
        }
    }

    /// The step the ant wants to take: towards its target, as long as its
    /// speed allows in the time `d`.
    pub open spec fn stride(self, land: Land, d: int, chance: Chance) -> Vec2 {
        self.aimed(land, d, chance).minus(self.pos).resized(sat(d * ANT_SPEED))
    }

    /// The marker the ant leaves in the tick: the one it planned, if it
    /// ends the tick more than a marker spacing from where it left the last.
    pub open spec fn dropped(self, land: Land, d: int, chance: Chance) -> Option<Marker> {
        if self.last_marker_pos.farther(self.stepped(land, d, chance).pos, ANT_MARKER_DIST as int) {
            self.planned(land, d, chance).next_marker
        } else {
            None
        }
    }

    /// The ant after a tick of the length `d` in `world`: in the state it
    /// planned; its target set anew, and the cooldown with it, when the
    /// cooldown has run out; moved a stride towards its target, as far as
    /// obstacles allow, and turned back where they allow nothing.
    pub open spec fn stepped(self, land: Land, d: int, chance: Chance) -> Ant {
        let plan = self.planned(land, d, chance);
        let aim = self.aimed(land, d, chance);
        let stride = self.stride(land, d, chance);
        let stuck = self.pos != aim && slide(land, self.pos, stride) is None;
        let pos = if self.pos != aim {
            slid(land, self.pos, stride)
        } else {
            self.pos
        };
        Ant {
            pos,
            target: if stuck {
                self.pos.minus(heading_of(self.pos, self.target))
            } else {
                aim
            },
            target_change_cooldown: if self.target_change_cooldown - d < 0 {
                sat(chance.jitter + TARGET_CHANGE_COOLDOWN) as i32
            } else {
                sat(self.target_change_cooldown - d) as i32
            },
            last_marker_pos: if self.last_marker_pos.farther(pos, ANT_MARKER_DIST as int)
                && plan.next_marker is Some {
                pos
            } else {
                self.last_marker_pos
            },
            state: plan.state,
        }
    }

    /// The land after the ant's tick: without the piece of food it took,
    /// with the marker it left, the hive fed with what it handed over.
    pub open spec fn land_after(self, land: Land, d: int, chance: Chance) -> Land {
        Land {
            food: food_taken(land.food, self.planned(land, d, chance).pickup),
            food_size: land.food_size,
            food_issued: land.food_issued,
            markers: markers_left(land.markers, land.marker_size, self.dropped(land, d, chance)),
            marker_size: land.marker_size,
            hive: hive_fed(land.hive, self.planned(land, d, chance).delivery, false),
            collision: land.collision,
            map_tl: land.map_tl,
        }
    }

    /// A roaming ant that perceives food within the detection range goes
    /// for that food, whatever Food marker it perceives as well.
    pub proof fn lemma_food_before_trail(
        self,
        senses: Senses,
        id: FoodID,
        food: Food,
        d: int,
        chance: Chance,
    )
        requires
            self.state is Wander,
            senses.food == Some((id, food)),
            food.pos.nearer(self.pos, ANT_FOOD_DETECTION_RANGE as int),
        ensures
            self.intends(senses, d, chance).state == AntState::GetFood(food.pos),
            self.intends(senses, d, chance).pickup is None,
    {
    }

    /// A roaming ant that stands on a piece of food sees food, whichever
    /// way it looks, within the detection range, and goes for the piece it
    /// sees: the one nearest to the point one unit ahead of it. The food
    /// field stays as it was. This holds where a food cell is a unit wide at
    /// least, so that the point ahead lies in the ant's cell or next to it.
    pub proof fn lemma_goes_for_food(self, land: Land, id: FoodID, d: int, chance: Chance)
        requires
            field_wf(land.food, land.food_size, land.food_issued),
            land.food_size >= UNIT,
            self.state is Wander,
            holds_id(land.food, id),
            item_of(land.food, id).pos == self.pos,
        ensures
            found(
                land.food,
                land.food_size,
                self.pos.plus(heading_of(self.pos, self.target)),
            ) matches Some(n) && holds_id(land.food, n) && item_of(land.food, n).pos.nearer(
                self.pos,
                ANT_FOOD_DETECTION_RANGE as int,
            ) && self.stepped(land, d, chance).state == AntState::GetFood(
                item_of(land.food, n).pos,
            ),
            self.land_after(land, d, chance).food == land.food,
    {
        let p = self.pos.plus(heading_of(self.pos, self.target));
        lemma_ahead(self.pos, self.target);
        lemma_close_cells(self.pos, p, land.food_size);
        let c = choose|c: (int, int)| land.food.contains_key(c) && #[trigger] land.food[c].contains_key(id);
        lemma_item_at(land.food, c, id);
        assert(in_sight(land.food, land.food_size, p, id));
        lemma_some_found(land.food, land.food_size, p, id);
        let first = found(land.food, land.food_size, p).unwrap();
        lemma_found(land.food, land.food_size, land.food_issued, p, first);
        let food = item_of(land.food, first);
        assert(food.pos.dist2(p) <= self.pos.dist2(p));
        lemma_in_range(food.pos, p, self.pos);
        let senses = senses_of(land, self.pos, heading_of(self.pos, self.target));
        assert(senses.food == Some((first, food)));
        self.lemma_food_before_trail(senses, first, food, d, chance);
    }

    /// An ant that starts to roam where a piece of food lies goes for that
    /// piece in its first tick, and leaves the food field as it was.
    pub proof fn lemma_sets_out(self, land: Land, id: FoodID, d: int, chance: Chance)
        requires
            field_wf(land.food, land.food_size, land.food_issued),
            self.state is Wander,
            self.target == self.pos,
            holds_id(land.food, id),
            item_of(land.food, id).pos == self.pos,
        ensures
            self.stepped(land, d, chance).state == AntState::GetFood(self.pos),
            self.land_after(land, d, chance).food == land.food,
            holds_id(self.land_after(land, d, chance).food, id),
    {
        let heading = heading_of(self.pos, self.target);
        assert(heading == Vec2::origin());
        let p = self.pos.plus(heading);
        assert(p == self.pos);
        let c = choose|c: (int, int)| land.food.contains_key(c) && #[trigger] land.food[c].contains_key(id);
        lemma_item_at(land.food, c, id);
        assert(adjacent(c, cell_of(p, land.food_size)));
        assert(in_sight(land.food, land.food_size, p, id));
        lemma_some_found(land.food, land.food_size, p, id);
        let first = found(land.food, land.food_size, p).unwrap();
        let q = item_of(land.food, first).pos;
        assert(self.pos.dist2(p) == 0);
        assert(q == p) by (nonlinear_arith)
            requires
                q.dist2(p) <= 0,
                q.dist2(p) == (q.x - p.x) * (q.x - p.x) + (q.y - p.y) * (q.y - p.y),
        {
            assert((q.x - p.x) * (q.x - p.x) >= 0);
            assert((q.y - p.y) * (q.y - p.y) >= 0);
            if q.x != p.x {
                assert((q.x - p.x) * (q.x - p.x) > 0);
            }
            if q.y != p.y {
                assert((q.y - p.y) * (q.y - p.y) > 0);
            }
        }
    }

    /// An ant on its way to food that stands within the pickup range of the
    /// place it remembers takes the piece it sees: the field holds that
    /// piece no longer, every other piece stays, and the ant turns home with
    /// what it took. The hive waits.
    pub proof fn lemma_picks_up(self, land: Land, id: FoodID, d: int, chance: Chance)
        requires
            self.state matches AntState::GetFood(at) && at.nearer(
                self.pos,
                ANT_FOOD_PICKUP_RANGE as int,
            ),
            found(
                land.food,
                land.food_size,
                self.pos.plus(heading_of(self.pos, self.target)),
            ) == Some(id),
        ensures
            self.stepped(land, d, chance).state matches AntState::GoHome(f, _, _, _, _) && f
                == item_of(land.food, id),
            self.land_after(land, d, chance).food == without(land.food, id),
            !holds_id(self.land_after(land, d, chance).food, id),
            forall|other: FoodID|
                other != id ==> (holds_id(self.land_after(land, d, chance).food, other)
                    <==> holds_id(land.food, other)),
            self.land_after(land, d, chance).hive == land.hive,
    {
        lemma_take_once(land.food, id);
    }

    /// An ant that carries food and stands within the deposit range of the
    /// hive hands the food over and starts to roam: the hive gains five
    /// times the food's value, up to its cap, and is not told of a gift of
    /// the player. The food field stays as it was.
    pub proof fn lemma_delivers(self, land: Land, food: Food, d: int, chance: Chance)
        requires
            self.state matches AntState::GoHome(carried, _, _, _, _) && carried == food,
            self.pos.nearer(Vec2::origin(), ANT_HOME_DEPOSIT_RANGE as int),
        ensures
            self.stepped(land, d, chance).state == AntState::Wander(0, chance.angle, 0),
            self.land_after(land, d, chance).hive.life == Hive::fed(
                land.hive.life as int,
                food.value as int,
            ),
            self.land_after(land, d, chance).hive.player_gave == land.hive.player_gave,
            self.land_after(land, d, chance).food == land.food,
            0 <= food.value && i32::MIN <= land.hive.life + DELIVERY_GAIN * food.value
                <= HIVE_MAX_LIFE ==> self.land_after(land, d, chance).hive.life == land.hive.life
                + DELIVERY_GAIN * food.value,
            0 < food.value && land.hive.life < HIVE_MAX_LIFE ==> self.land_after(
                land,
                d,
                chance,
            ).hive.life > land.hive.life,
    {
    }

    pub fn new(pos: &Vec2) -> (a: Ant)
        ensures
            a == Ant::at(*pos),
    {
        Ant {
            pos: *pos,
            target: *pos,
            target_change_cooldown: 0,
            last_marker_pos: *pos,
            state: AntState::Wander(0, 0, 0),
        }
    }

    /// The marker of `kind` that an agent at `pos` looking along `heading`
    /// goes by.
    pub fn find_beacon(
        markers: &MarkerWorld,
        pos: &Vec2,
        heading: &Vec2,
        kind: MarkerKind,
        reference: &Vec2,
    ) -> (r: Option<Marker>)
        requires
            markers.wf(),
        ensures
            r == beacon(markers@, markers.grid_size(), *pos, *heading, kind, *reference),
    {
        let seen = markers.local_markers(pos, heading, Some(kind));
        let mut far: Vec<Marker> = Vec::new();
        let mut spots: Vec<Vec2> = Vec::new();
        let mut j: usize = 0;
        while j < seen.len()
            invariant
                0 <= j <= seen.len(),
                far@ == seen@.take(j as int).filter(far_from(*pos)),
                spots@ == far@.map_values(places()),
            decreases seen.len() - j,
        {
            proof {
                reveal(Seq::filter);
                assert(seen@.take(j + 1).drop_last() == seen@.take(j as int));
            }
            if seen[j].pos().beyond(*pos, ANT_MARKER_DIST) {
                far.push(seen[j]);
                spots.push(*seen[j].pos());
                assert(spots@ == far@.map_values(places()));
            }
            j += 1;
        }
        assert(seen@.take(seen.len() as int) == seen@);
        match closest(&spots, *reference) {
            Some(i) => Some(far[i]),
            None => None,
        }
    }

    /// The piece of food that an agent at `pos` looking along `heading`
    /// sees.
    pub fn sight(food: &FoodWorld, pos: &Vec2, heading: &Vec2) -> (r: Option<(FoodID, Food)>)
        requires
            food.wf(),
        ensures
            r == sighted(food@, food.grid_size(), *pos, *heading),
            r matches Some((id, f)) ==> holds_id(food@, id) && f == item_of(food@, id),
    {
        match food.find_food(pos, heading) {
            Some(id) => {
                proof {
                    lemma_found(food@, food.grid_size(), food.issued(), pos.plus(*heading), id);
                }
                match food.get_food(id) {
                    Some(f) => Some((id, *f)),
                    None => None,
                }
            },
            None => None,
        }
    }

    /// What an ant at `pos` looking along `heading` perceives.
    pub fn sense(world: &World, pos: &Vec2, heading: &Vec2) -> (s: Senses)
        requires
            world.wf(),
        ensures
            s == senses_of(world@, *pos, *heading),
            s.food matches Some((id, f)) ==> holds_id(world.food@, id) && f == item_of(world.food@, id),
    {
        Senses {
            food: Self::sight(&world.food, pos, heading),
            food_marker: Self::find_beacon(&world.marker, pos, heading, MarkerKind::Food, pos),
            home_marker: Self::find_beacon(
                &world.marker,
                pos,
                heading,
                MarkerKind::Home,
                &Vec2::zero(),
            ),
        }
    }

    /// The point a roaming ant steers for after a time `d`.
    pub fn steer(pos: &Vec2, target: &Vec2, course: i32, sway: i32, d: i32) -> (p: Vec2)
        ensures
            p == steered(*pos, *target, course as int, sway as int, d as int),
    {
        let to = target.sub(*pos);
        let turned: i32 = angle_lerp(atan2(to.y, to.x), course, portion(d, 4, 5));
        pos.add(Vec2::from_angle(turned)).add(
            Vec2::from_angle(sway).scale(portion(d, ANT_TURN_SPEED, 1), 1000),
        )
    }

    /// The timer, course and sway of a roaming ant after a time `d`.
    pub fn roam(timer: i32, course: i32, sway: i32, d: i32, chance: &Chance) -> (r: (i32, i32, i32))
        ensures
            r == roamed(timer as int, course as int, sway as int, d as int, *chance),
    {
        let left: i64 = timer as i64 - d as i64;
        if left < 0 {
            (chance.timer, chance.course, chance.sway)
        } else {
            (saturate(left), course, sway)
        }
    }

    /// The piece of food that an ant at `pos` notices.
    pub fn notice(senses: &Senses, pos: &Vec2) -> (r: Option<Food>)
        ensures
            r == noticed(*senses, *pos),
    {
        match senses.food {
            Some((_, f)) => if f.pos.within(*pos, ANT_FOOD_DETECTION_RANGE) {
                Some(f)
            } else {
                None
            },
            None => None,
        }
    }

    /// What the ant means to do in a tick of the length `d`, perceiving
    /// `senses`.
    pub fn plan(&self, senses: &Senses, d: i32, chance: &Chance) -> (p: AntPlan)
        ensures
            p == self.intends(*senses, d as int, *chance),
    {
        let start = AntState::Wander(0, chance.angle, 0);
        let home_marker = Marker::Home(self.pos, HOME_MARKER_LIFE);
        let food_marker = Marker::Food(self.pos, FOOD_MARKER_LIFE);
        match self.state {
            AntState::Wander(timer, course, sway) => {
                let (t, c, s) = Self::roam(timer, course, sway, d, chance);
                let target = Self::steer(&self.pos, &self.target, course, sway, d);
                match Self::notice(senses, &self.pos) {
                    Some(f) => AntPlan {
                        state: AntState::GetFood(f.pos),
                        target,
                        next_target: self.target,
                        next_marker: Some(food_marker),
                        pickup: None,
                        delivery: None,
                    },
                    None => AntPlan {
                        state: if senses.food_marker.is_some() {
                            AntState::Follow(senses.food_marker)
                        } else {
                            AntState::Wander(t, c, s)
                        },
                        target,
                        next_target: self.target,
                        next_marker: Some(home_marker),
                        pickup: None,
                        delivery: None,
                    },
                }
            },
            AntState::GetFood(food_pos) => match senses.food {
                None => AntPlan {
                    state: start,
                    target: self.target,
                    next_target: food_pos,
                    next_marker: None,
                    pickup: None,
                    delivery: None,
                },
                Some((id, f)) => if food_pos.within(self.pos, ANT_FOOD_PICKUP_RANGE) {
                    AntPlan {
                        state: AntState::GoHome(f, senses.home_marker, 0, 0, 0),
                        target: self.target,
                        next_target: food_pos,
                        next_marker: Some(food_marker),
                        pickup: Some(id),
                        delivery: None,
                    }
                } else {
                    AntPlan {
                        state: self.state,
                        target: self.target,
                        next_target: food_pos,
                        next_marker: Some(food_marker),
                        pickup: None,
                        delivery: None,
                    }
                },
            },
            AntState::Follow(m) => match Self::notice(senses, &self.pos) {
                Some(f) => AntPlan {
                    state: AntState::GetFood(f.pos),
                    target: self.target,
                    next_target: self.target,
                    next_marker: Some(food_marker),
                    pickup: None,
                    delivery: None,
                },
                None => match m {
                    Some(Marker::Food(p, _)) => AntPlan {
                        state: AntState::Follow(senses.food_marker),
                        target: self.target,
                        next_target: p,
                        next_marker: Some(home_marker),
                        pickup: None,
                        delivery: None,
                    },
                    _ => AntPlan {
                        state: start,
                        target: self.target,
                        next_target: self.target,
                        next_marker: Some(home_marker),
                        pickup: None,
                        delivery: None,
                    },
                },
            },
            AntState::GoHome(food, m, timer, course, sway) => if self.pos.within(
                Vec2::zero(),
                ANT_HOME_DEPOSIT_RANGE,
            ) {
                AntPlan {
                    state: start,
                    target: self.target,
                    next_target: self.target,
                    next_marker: Some(food_marker),
                    pickup: None,
                    delivery: Some(food),
                }
            } else {
                let by = if senses.home_marker.is_some() {
                    senses.home_marker
                } else {
                    senses.food_marker
                };
                match m {
                    Some(marker) => AntPlan {
                        state: AntState::GoHome(food, by, timer, course, sway),
                        target: self.target,
                        next_target: *marker.pos(),
                        next_marker: Some(food_marker),
                        pickup: None,
                        delivery: None,
                    },
                    None => {
                        let (t, c, s) = Self::roam(timer, course, sway, d, chance);
                        AntPlan {
                            state: AntState::GoHome(food, by, t, c, s),
                            target: Self::steer(&self.pos, &self.target, course, sway, d),
                            next_target: self.target,
                            next_marker: Some(food_marker),
                            pickup: None,
                            delivery: None,
                        }
                    },
                }
            },
        }
    }

    /// Lets a time `d` pass for the ant: it perceives, plans, takes or
    /// hands over food as planned, sets its target, moves, and leaves its
    /// marker.
    pub fn step(&mut self, world: &mut World, spawn_queue: &mut Vec<Gobj>, d: i32, chance: &Chance)
        requires
            old(world).wf(),
            !old(world)@.blocked(old(self).pos),
        ensures
            final(world).wf(),
            !final(world)@.blocked(final(self).pos),
            *final(self) == old(self).stepped(old(world)@, d as int, *chance),
            final(world)@ == old(self).land_after(old(world)@, d as int, *chance),
            queue_grown(
                old(spawn_queue)@,
                final(spawn_queue)@,
                old(world)@.markers,
                old(world)@.marker_size,
                old(self).dropped(old(world)@, d as int, *chance),
            ),
    {
        let ghost start = world@;
        let heading = self.target.sub(self.pos).resize(UNIT);
        let senses = Self::sense(world, &self.pos, &heading);
        let plan = self.plan(&senses, d, chance);
        // The piece to be taken was perceived in this very tick, so it is there;
        // an ant that finds it gone all the same starts to roam.
        let state = match plan.pickup {
            Some(id) => match world.food.take_food(id) {
                Some(_) => plan.state,
                None => AntState::Wander(0, chance.angle, 0),
            },
            None => plan.state,
        };
        match plan.delivery {
            Some(f) => {
                world.hive.deposit(false, f.value);
            },
            None => {},
        }
        let left: i64 = self.target_change_cooldown as i64 - d as i64;
        if left < 0 {
            self.target = plan.next_target;
            self.target_change_cooldown = saturate(chance.jitter as i64 + TARGET_CHANGE_COOLDOWN as i64);
        } else {
            self.target = plan.target;
            self.target_change_cooldown = saturate(left);
        }
        self.state = state;
        assert(forall|p: Vec2| world@.blocked(p) == start.blocked(p));
        assert(forall|p: Vec2, v: Vec2| slide(world@, p, v) == slide(start, p, v));
        if self.pos != self.target {
            let stride = self.target.sub(self.pos).resize(portion(d, ANT_SPEED, 1));
            let moved = Gobj::translate_collidable(&mut self.pos, stride, world);
            if !moved {
                self.target = self.pos.sub(heading);
            }
        }
        if self.last_marker_pos.beyond(self.pos, ANT_MARKER_DIST) {
            match plan.next_marker {
                Some(m) => {
                    world.marker.create_marker(m, spawn_queue);
                    self.last_marker_pos = self.pos;
                },
                None => {},
            }
        }
    }
}

} // verus!

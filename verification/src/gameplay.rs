//! The foraging scene: the world, the objects in it, and the order of a tick.
//!
//! A tick first lets the hive starve, then lets every object take its turn,
//! then lets the markers fade and the food field tidy up, and settles what
//! follows from that: the end of the game, new food, the colony's preview
//! after a delivery by the player, the way down into the nest.

use vstd::prelude::*;
use crate::ants::{home_marker_at, markers_left, queue_grown};
use crate::config::W;
use crate::food::{
    field_wf, holds_id, item_of, lemma_item_at, lemma_put_keeps_wf, pruned, with_food, Food,
    FoodCells, FoodID, FOOD_VARIANTS,
};
use crate::game_objects::{
    all_sound, casualties, lemma_pass_frame, pass, queue_announces, swept, taken_in, things_of,
    GameObjectID, ObjectSet,
};
use crate::gobj::{
    Chance, Gobj, Input, Thing, ANT_HOME_DEPOSIT_RANGE, ANT_RAD, HOME_MARKER_LIFE,
    PLAYER_PICKUP_RANGE,
};
use crate::hive::Hive;
use crate::markers::{later, seen, Marker};
use crate::maths::{gen_range, random_ring_point, TAU};
use crate::particles::on_ring;
use crate::player::Player;
use crate::signals::{Signal, SignalQueue};
use crate::vector::{sat, saturate, Vec2, UNIT};
use crate::world::{
    Land, Mask, World, COLLISION_GRID_RESOLUTION, MAP_SIZE, MAX_COLLISION_CELLS,
};

verus! {

/// How long the colony is shown after a delivery by the player.
pub const PREVIEW_LENGTH: i32 = 5000;

/// The shortest time between two spawnings of food.
pub const FOOD_TIMER_LOW: i32 = 15000;

/// The longest time between two spawnings of food, not reached.
pub const FOOD_TIMER_HIGH: i32 = 36000;

/// The shortest tick.
pub const MIN_TICK: i32 = 1;

/// The longest tick.
pub const MAX_TICK: i32 = 200;

/// The hive's state, in thousandths of full, below which food is spawned.
pub const HUNGER: i32 = 900;

/// How many clusters of food a spawning lays out.
pub const FOOD_CLUSTERS: usize = 3;

/// How often a spawning looks for a site for one cluster before it gives
/// that cluster up.
pub const SITE_TRIES: usize = 1000;

/// How many ants the colony starts with.
pub const FIRST_ANTS: usize = 100;

/// How many ticks the colony runs before the game begins.
pub const PRESIM_TICKS: usize = 200;

#[derive(Clone, Copy, Debug, PartialEq, Eq, Structural)]
pub enum GameState {
    On,
    /// The colony is shown, for this long still.
    Preview(i32),
    Over,
}

/// What a tick takes from outside: the time since the last tick, what the
/// player steers and presses, and the two keys that end and restart a game.
#[derive(Clone, Copy, Debug)]
pub struct Frame {
    pub d: i32,
    pub input: Input,
    pub lose: bool,
    pub restart: bool,
}

pub struct Gameplay {
    pub objs: ObjectSet<Gobj>,
    pub player_id: GameObjectID,
    pub world: World,
    pub spawn_queue: Vec<Gobj>,
    pub state: GameState,
    /// The time until the player may go down into the nest.
    pub load_timer: i32,
    /// The time until food is next spawned.
    pub food_timer: i32,
}

/// The time `d` brought within the shortest and the longest tick.
pub open spec fn clamped(d: int) -> int {
    if d < MIN_TICK {
        MIN_TICK as int
    } else if d > MAX_TICK {
        MAX_TICK as int
    } else {
        d
    }
}

/// Where the player is put when it goes down into the nest: on the edge of
/// the hive's deposit range.
pub open spec fn doorstep() -> Vec2 {
    Vec2 { x: 0, y: ANT_HOME_DEPOSIT_RANGE }
}

/// The land after the hive starved for a time `d`.
pub open spec fn starved(land: Land, d: int) -> Land {
    Land {
        food: land.food,
        food_size: land.food_size,
        food_issued: land.food_issued,
        markers: land.markers,
        marker_size: land.marker_size,
        hive: Hive { life: sat(land.hive.life - d) as i32, player_gave: land.hive.player_gave },
        collision: land.collision,
        map_tl: land.map_tl,
    }
}

/// The land after its markers faded for a time `d` and its food field lost
/// its empty buckets.
pub open spec fn settled(land: Land, d: int) -> Land {
    Land {
        food: pruned(land.food),
        food_size: land.food_size,
        food_issued: land.food_issued,
        markers: later(land.markers, d),
        marker_size: land.marker_size,
        hive: land.hive,
        collision: land.collision,
        map_tl: land.map_tl,
    }
}

/// The land after the hive was asked whether the player has delivered.
pub open spec fn acknowledged(land: Land) -> Land {
    Land {
        food: land.food,
        food_size: land.food_size,
        food_issued: land.food_issued,
        markers: land.markers,
        marker_size: land.marker_size,
        hive: Hive { life: land.hive.life, player_gave: false },
        collision: land.collision,
        map_tl: land.map_tl,
    }
}

/// Whether a marker lies on the hive itself.
pub open spec fn home_marked(land: Land) -> bool {
    exists|i: int|
        0 <= i < seen(land.markers, land.marker_size, Vec2::origin(), None).len() && (#[trigger] seen(
            land.markers,
            land.marker_size,
            Vec2::origin(),
            None,
        )[i]).place() == Vec2::origin()
}

/// The marker that the end of a tick leaves on the hive: a fresh Home
/// marker, where none lies there.
pub open spec fn hive_marker(land: Land) -> Option<Marker> {
    if home_marked(land) {
        None
    } else {
        Some(home_marker_at(Vec2::origin()))
    }
}

/// Whether food may be laid out round `place` while the player stands at
/// `player`: where nothing blocks, out of the player's sight.
pub open spec fn good_site(land: Land, place: Vec2, player: Vec2) -> bool {
    !land.blocked(place) && place.farther(player, W as int)
}

/// Whether a cluster of food may be laid out round `site`: a good site on
/// the ring round the hive from a tenth of the map's width to half of it.
pub open spec fn food_site(site: Vec2, land: Land, player: Vec2) -> bool {
    on_ring(site, Vec2::origin(), MAP_SIZE / 10, MAP_SIZE / 2) && good_site(land, site, player)
}

/// Whether `f` is a piece of food as chance makes them: worth from one unit
/// up to five, at any angle, with any of the pictures.
pub open spec fn rolled_food(f: Food) -> bool {
    exists|value: int, angle: int, index: int|
        UNIT <= value < 5 * UNIT && 0 <= angle < TAU && 0 <= index < FOOD_VARIANTS && f
            == #[trigger] Food::of(f.pos, value, angle, index)
}

/// Whether `f` is a piece of food as a spawning lays them out: as chance
/// makes them, from one ant's radius to six away from the site of its
/// cluster.
pub open spec fn fresh_food(f: Food, land: Land, player: Vec2) -> bool {
    rolled_food(f) && exists|site: Vec2| #[trigger]
        food_site(site, land, player) && on_ring(f.pos, site, ANT_RAD as int, ANT_RAD * 6)
}

/// Whether `t` is an ant as `spawn_ants` puts them round `at`: a scout or a
/// forager that starts to roam, from one ant's radius to three away, where
/// it can stand.
pub open spec fn spawned_ant(t: Thing, at: Vec2, land: Land) -> bool {
    exists|pos: Vec2, lot: int|
        0 <= lot < 1000 && on_ring(pos, at, ANT_RAD as int, ANT_RAD * 3) && !land.blocked(pos) && t
            == #[trigger] Gobj::ant_of(pos, lot)
}

/// Where one ant was tried: the point, and the roll that decides whether
/// it is a scout.
pub struct Spot {
    pub pos: Vec2,
    pub lot: int,
}

/// Whether `spot` is as `spawn_ants` draws them round `at`: from one ant's
/// radius to three away, with a roll out of a thousand.
pub open spec fn ant_spot(spot: Spot, at: Vec2) -> bool {
    on_ring(spot.pos, at, ANT_RAD as int, ANT_RAD * 3) && 0 <= spot.lot < 1000
}

/// The slots `things` after ants were tried at `spots`, one after the
/// other: each spot where an ant can stand has got its ant in a new slot,
/// the roll deciding its kind, as long as numbers were left; a blocked spot
/// has got none.
pub open spec fn peopled(things: Seq<Option<Thing>>, spots: Seq<Spot>, land: Land) -> Seq<
    Option<Thing>,
>
    decreases spots.len(),
{
    if spots.len() == 0 {
        things
    } else if land.blocked(spots.last().pos) {
        peopled(things, spots.drop_last(), land)
    } else {
        taken_in(
            peopled(things, spots.drop_last(), land),
            Gobj::ant_of(spots.last().pos, spots.last().lot),
        )
    }
}

/// What chance made of one cluster of food: the sites that were tried, in
/// their order, and the pieces that were laid out.
pub struct Cluster {
    pub tries: Seq<Vec2>,
    pub pieces: Seq<Food>,
}

/// Whether `c` is a cluster as a spawning draws them: sites on the ring
/// round the hive were tried until one was good, a thousand at most; round
/// the good one from five pieces up to twenty-five were laid out, each as
/// chance makes them, from one ant's radius to six away; where no site was
/// good there are no pieces.
pub open spec fn cluster_drawn(c: Cluster, land: Land, player: Vec2) -> bool {
    &&& 1 <= c.tries.len() <= SITE_TRIES
    &&& forall|i: int|
        0 <= i < c.tries.len() ==> on_ring(
            #[trigger] c.tries[i],
            Vec2::origin(),
            MAP_SIZE / 10,
            MAP_SIZE / 2,
        )
    &&& forall|i: int| 0 <= i < c.tries.len() - 1 ==> !good_site(land, #[trigger] c.tries[i], player)
    &&& if good_site(land, c.tries.last(), player) {
        &&& 5 <= c.pieces.len() < 25
        &&& forall|j: int|
            0 <= j < c.pieces.len() ==> rolled_food(#[trigger] c.pieces[j]) && on_ring(
                c.pieces[j].pos,
                c.tries.last(),
                ANT_RAD as int,
                ANT_RAD * 6,
            )
    } else {
        c.tries.len() == SITE_TRIES && c.pieces.len() == 0
    }
}

/// The pieces of `clusters`, cluster after cluster.
pub open spec fn gathered(clusters: Seq<Cluster>) -> Seq<Food>
    decreases clusters.len(),
{
    if clusters.len() == 0 {
        Seq::empty()
    } else {
        gathered(clusters.drop_last()) + clusters.last().pieces
    }
}

/// A food field and the number it gave out last.
pub struct Larder {
    pub food: FoodCells,
    pub issued: int,
}

/// The larder after `pieces` were put into a field of cells `size` wide,
/// one after the other, each under the next number; a piece for which no
/// number is left is not put.
pub open spec fn stocked(larder: Larder, size: int, pieces: Seq<Food>) -> Larder
    decreases pieces.len(),
{
    if pieces.len() == 0 {
        larder
    } else {
        let before = stocked(larder, size, pieces.drop_last());
        if before.issued < usize::MAX {
            Larder {
                food: with_food(before.food, size, (before.issued + 1) as usize, pieces.last()),
                issued: before.issued + 1,
            }
        } else {
            before
        }
    }
}

/// Whether every piece of food of `before` is a piece of `after`, under its
/// number.
pub open spec fn keeps_food(before: FoodCells, after: FoodCells) -> bool {
    forall|id: FoodID| #[trigger]
        holds_id(before, id) ==> holds_id(after, id) && item_of(after, id) == item_of(before, id)
}

/// The objects of `queue`, each in a slot of its own.
pub open spec fn slotted(queue: Seq<Gobj>) -> Seq<Option<Gobj>> {
    Seq::new(queue.len(), |i: int| Some(queue[i]))
}

/// `slots` with each object of `queue` behind it, in a slot of its own, as
/// long as numbers are left.
pub open spec fn joined(slots: Seq<Option<Gobj>>, queue: Seq<Gobj>) -> Seq<Option<Gobj>>
    decreases queue.len(),
{
    if queue.len() == 0 {
        slots
    } else {
        taken_in(joined(slots, queue.drop_last()), queue.last())
    }
}

impl Gameplay {
    /// The game is well formed when its world is, every object and every
    /// object in waiting is and stands in a free place, the player is there
    /// and not scheduled to be destroyed, and the doorstep of the hive is
    /// free.
    pub open spec fn wf(&self) -> bool {
        &&& self.world.wf()
        &&& self.objs.wf()
        &&& self.objs.sound(self.world@)
        &&& all_sound(slotted(self.spawn_queue@), self.world@)
        &&& self.player_id < self.objs.slots().len()
        &&& self.objs.slots()[self.player_id as int] matches Some(Gobj::Player(_))
        &&& !self.objs.to_be_destroyed@.contains(self.player_id)
        &&& !self.world@.blocked(doorstep())
    }

    /// The player.
    pub open spec fn player(&self) -> Player {
        match self.objs.slots()[self.player_id as int] {
            Some(Gobj::Player(p)) => p,
            _ => Player::at(Vec2::origin()),
        }
    }

    /// A scene round the given hive, empty and not yet well formed: `init`
    /// makes it so.
    pub fn new(hive: Hive) -> (g: Self)
        ensures
            g.world.wf(),
            g.world@.hive == hive,
            g.objs.wf(),
            g.objs.slots().len() == 0,
            g.objs.to_be_destroyed@.len() == 0,
            g.spawn_queue@.len() == 0,
            g.player_id == 0,
            g.state == GameState::On,
            g.load_timer == 1000,
            g.food_timer == 0,
    {
        Gameplay {
            objs: ObjectSet::new(),
            player_id: 0,
            world: World::new(hive),
            spawn_queue: Vec::new(),
            state: GameState::On,
            load_timer: 1000,
            food_timer: 0,
        }
    }

    /// Lays the collision field of the map under the image `col_map` and
    /// puts the player on the hive. Returns whether the player can stand
    /// there and on the doorstep, and leaves the scene without a player
    /// where it cannot.
    pub fn init(&mut self, col_map: &Mask) -> (ok: bool)
        requires
            col_map.width / COLLISION_GRID_RESOLUTION <= MAX_COLLISION_CELLS,
            col_map.height / COLLISION_GRID_RESOLUTION <= MAX_COLLISION_CELLS,
            old(self).world.wf(),
            old(self).objs.wf(),
            old(self).objs.slots().len() == 0,
            old(self).objs.to_be_destroyed@.len() == 0,
            old(self).spawn_queue@.len() == 0,
        ensures
            ok == (!final(self).world@.blocked(Vec2::origin()) && !final(self).world@.blocked(
                doorstep(),
            )),
            ok ==> final(self).wf() && final(self).player() == Player::at(Vec2::origin())
                && final(self).objs.slots().len() == 1,
            !ok ==> final(self).objs == old(self).objs,
            final(self).world.food == old(self).world.food,
            final(self).world.marker == old(self).world.marker,
            final(self).world.hive == old(self).world.hive,
            final(self).world.map_tl == old(self).world.map_tl,
            final(self).world.collision.width() == col_map.width,
            final(self).world.collision.height() == col_map.height,
            final(self).world.collision.dims() == (Vec2 { x: MAP_SIZE, y: MAP_SIZE }),
            final(self).world.collision.cols() == col_map.width / COLLISION_GRID_RESOLUTION,
            final(self).world.collision.rows() == col_map.height / COLLISION_GRID_RESOLUTION,
            forall|c: (int, int)|
                0 <= c.0 < final(self).world.collision.cols() && 0 <= c.1
                    < final(self).world.collision.rows()
                    ==> #[trigger] final(self).world.collision@[c] == col_map.opaque_at(
                    c.0 * 4 + 2,
                    c.1 * 4 + 2,
                ),
            final(self).state == old(self).state,
            final(self).load_timer == old(self).load_timer,
            final(self).food_timer == old(self).food_timer,
            final(self).spawn_queue@ == old(self).spawn_queue@,
    {
        self.world.init(col_map, &Vec2 { x: MAP_SIZE, y: MAP_SIZE });
        let home = Vec2::zero();
        let step = Vec2 { x: 0, y: ANT_HOME_DEPOSIT_RANGE };
        if self.world.is_collision(&home) || self.world.is_collision(&step) {
            return false;
        }
        self.player_id = self.objs.create(Gobj::new_player(&home));
        true
    }

    /// Where the player stands.
    pub fn player_pos(&self) -> (p: Vec2)
        requires
            self.wf(),
        ensures
            p == self.player().pos,
    {
        match self.objs.get_obj(self.player_id) {
            Gobj::Player(p) => p.pos,
            _ => vstd::pervasive::unreached(),
        }
    }

    /// Ends the game.
    pub fn lose(&mut self)
        ensures
            final(self).state == GameState::Over,
            final(self).objs == old(self).objs,
            final(self).world == old(self).world,
            final(self).spawn_queue == old(self).spawn_queue,
            final(self).player_id == old(self).player_id,
            final(self).load_timer == old(self).load_timer,
            final(self).food_timer == old(self).food_timer,
    {
        self.state = GameState::Over;
    }

    /// Puts the game on again.
    pub fn restart(&mut self)
        ensures
            final(self).state == GameState::On,
            final(self).objs == old(self).objs,
            final(self).world == old(self).world,
            final(self).spawn_queue == old(self).spawn_queue,
            final(self).player_id == old(self).player_id,
            final(self).load_timer == old(self).load_timer,
            final(self).food_timer == old(self).food_timer,
    {
        self.state = GameState::On;
    }

    /// The time `d` brought within the shortest and the longest tick.
    pub fn clamp_tick(d: i32) -> (r: i32)
        ensures
            r == clamped(d as int),
    {
        if d < MIN_TICK {
            MIN_TICK
        } else if d > MAX_TICK {
            MAX_TICK
        } else {
            d
        }
    }

    /// Whether food may be laid out round `place` while the player stands
    /// at `player`.
    pub fn site_ok(&self, place: &Vec2, player: &Vec2) -> (ok: bool)
        requires
            self.world.wf(),
        ensures
            ok == good_site(self.world@, *place, *player),
    {
        !self.world.is_collision(place) && place.beyond(*player, W)
    }

    /// Puts the piece of food `f` into the food field, under the next
    /// number; nothing where the numbers have run out.
    pub fn stock(&mut self, f: Food)
        requires
            old(self).wf(),
        ensures
            final(self).wf(),
            final(self).objs == old(self).objs,
            final(self).spawn_queue == old(self).spawn_queue,
            final(self).player_id == old(self).player_id,
            final(self).state == old(self).state,
            final(self).load_timer == old(self).load_timer,
            final(self).food_timer == old(self).food_timer,
            final(self).world.marker == old(self).world.marker,
            final(self).world.hive == old(self).world.hive,
            final(self).world.collision == old(self).world.collision,
            final(self).world.map_tl == old(self).world.map_tl,
            final(self).world@.food_size == old(self).world@.food_size,
            old(self).world@.food_issued < usize::MAX ==> final(self).world@.food_issued
                == old(self).world@.food_issued + 1 && final(self).world@.food == with_food(
                old(self).world@.food,
                old(self).world@.food_size,
                (old(self).world@.food_issued + 1) as usize,
                f,
            ),
            old(self).world@.food_issued >= usize::MAX ==> final(self).world@.food
                == old(self).world@.food && final(self).world@.food_issued
                == old(self).world@.food_issued,
            keeps_food(old(self).world@.food, final(self).world@.food),
            old(self).world@.food_issued < usize::MAX ==> holds_id(
                final(self).world@.food,
                (old(self).world@.food_issued + 1) as usize,
            ) && item_of(final(self).world@.food, (old(self).world@.food_issued + 1) as usize) == f,
    {
        if self.world.food.last_id() < usize::MAX {
            let ghost before = self.world@.food;
            self.world.food.put_food(f);
            proof {
                lemma_put_keeps_food(
                    before,
                    old(self).world@.food_size,
                    old(self).world@.food_issued,
                    f,
                );
                lemma_put_holds(
                    before,
                    old(self).world@.food_size,
                    old(self).world@.food_issued,
                    f,
                );
            }
        }
    }

    /// The food field with the number it gave out last.
    pub open spec fn larder(self) -> Larder {
        Larder { food: self.world@.food, issued: self.world@.food_issued }
    }

    /// Whether `after` is this game with nothing changed but the food
    /// field, and that grown by what chance made of three clusters, their
    /// pieces put one after the other: every piece of before is there under
    /// its number, and at most three times twenty-four pieces have come, each
    /// as a spawning lays them out.
    pub open spec fn fed_anew(self, after: Gameplay) -> bool {
        &&& after.objs == self.objs
        &&& after.spawn_queue == self.spawn_queue
        &&& after.player_id == self.player_id
        &&& after.state == self.state
        &&& after.load_timer == self.load_timer
        &&& after.food_timer == self.food_timer
        &&& after.world.marker == self.world.marker
        &&& after.world.hive == self.world.hive
        &&& after.world.collision == self.world.collision
        &&& after.world.map_tl == self.world.map_tl
        &&& after.world@.food_size == self.world@.food_size
        &&& self.world@.food_issued <= after.world@.food_issued <= self.world@.food_issued
            + FOOD_CLUSTERS * 24
        &&& keeps_food(self.world@.food, after.world@.food)
        &&& forall|id: FoodID|
            self.world@.food_issued < id <= after.world@.food_issued ==> #[trigger] holds_id(
                after.world@.food,
                id,
            ) && fresh_food(item_of(after.world@.food, id), self.world@, self.player().pos)
        &&& exists|clusters: Seq<Cluster>|
            clusters.len() == FOOD_CLUSTERS && (forall|i: int|
                0 <= i < clusters.len() ==> cluster_drawn(
                    #[trigger] clusters[i],
                    self.world@,
                    self.player().pos,
                )) && after.larder() == stocked(
                self.larder(),
                self.world@.food_size,
                #[trigger] gathered(clusters),
            )
    }

    /// Whether food is due: the food timer has run out, and the hive is
    /// less than nine tenths full.
    pub open spec fn hungry(self) -> bool {
        self.food_timer < 0 && (self.world.hive.life * 1000) / (crate::hive::HIVE_MAX_LIFE as int)
            < HUNGER
    }

    /// Whether `after` is this game after the middle part of a tick of the
    /// length `d`: the food timer has run where it had not run out; where
    /// it had and food is due, food has been spawned, and the timer set
    /// anew to a time from `FOOD_TIMER_LOW` up to `FOOD_TIMER_HIGH`.
    pub open spec fn restocked(self, after: Gameplay, d: int) -> bool {
        if self.food_timer >= 0 {
            after == (Gameplay { food_timer: sat(self.food_timer - d) as i32, ..self })
        } else if self.hungry() {
            &&& FOOD_TIMER_LOW <= after.food_timer < FOOD_TIMER_HIGH
            &&& self.fed_anew(Gameplay { food_timer: self.food_timer, ..after })
        } else {
            after == self
        }
    }

    /// Lays out new food: for each of three clusters a site is looked for
    /// on the ring round the hive, out of the player's sight and where
    /// nothing blocks, and from five pieces up to twenty-five are put round
    /// it. Everything else stays as it is, and so does the food that was
    /// there.
    pub fn spawn_food(&mut self)
        requires
            old(self).wf(),
        ensures
            final(self).wf(),
            old(self).fed_anew(*final(self)),
    {
        let player = self.player_pos();
        let home = Vec2::zero();
        let ghost land0 = self.world@;
        let ghost larder0 = self.larder();
        let ghost mut done: Seq<Cluster> = Seq::empty();
        let mut cluster: usize = 0;
        while cluster < FOOD_CLUSTERS
            invariant
                0 <= cluster <= FOOD_CLUSTERS,
                self.wf(),
                home == Vec2::origin(),
                land0 == old(self).world@,
                larder0 == old(self).larder(),
                player == old(self).player().pos,
                self.objs == old(self).objs,
                self.spawn_queue == old(self).spawn_queue,
                self.player_id == old(self).player_id,
                self.state == old(self).state,
                self.load_timer == old(self).load_timer,
                self.food_timer == old(self).food_timer,
                self.world.marker == old(self).world.marker,
                self.world.hive == old(self).world.hive,
                self.world.collision == old(self).world.collision,
                self.world.map_tl == old(self).world.map_tl,
                self.world@.food_size == land0.food_size,
                land0.food_issued <= self.world@.food_issued <= land0.food_issued + cluster * 24,
                keeps_food(land0.food, self.world@.food),
                forall|id: FoodID|
                    land0.food_issued < id <= self.world@.food_issued ==> #[trigger] holds_id(
                        self.world@.food,
                        id,
                    ) && fresh_food(item_of(self.world@.food, id), land0, player),
                done.len() == cluster,
                forall|i: int| 0 <= i < done.len() ==> cluster_drawn(#[trigger] done[i], land0, player),
                self.larder() == stocked(larder0, land0.food_size, gathered(done)),
            decreases FOOD_CLUSTERS - cluster,
        {
            let mut site: Option<Vec2> = None;
            let mut tries: usize = 0;
            let ghost mut tried: Seq<Vec2> = Seq::empty();
            while tries < SITE_TRIES && site.is_none()
                invariant
                    0 <= tries <= SITE_TRIES,
                    self.world.wf(),
                    self.world@.collision == land0.collision,
                    self.world@.map_tl == land0.map_tl,
                    home == Vec2::origin(),
                    tried.len() == tries,
                    forall|i: int|
                        0 <= i < tried.len() ==> on_ring(
                            #[trigger] tried[i],
                            Vec2::origin(),
                            MAP_SIZE / 10,
                            MAP_SIZE / 2,
                        ),
                    forall|i: int|
                        0 <= i < tried.len() - 1 ==> !good_site(land0, #[trigger] tried[i], player),
                    site matches Some(place) ==> tried.len() >= 1 && tried.last() == place
                        && good_site(land0, place, player),
                    site is None ==> forall|i: int|
                        0 <= i < tried.len() ==> !good_site(land0, #[trigger] tried[i], player),
                decreases SITE_TRIES - tries,
            {
                let place = random_ring_point(&home, MAP_SIZE / 10, MAP_SIZE / 2);
                let ghost before = tried;
                proof {
                    tried = tried.push(place);
                    assert forall|i: int| 0 <= i < tried.len() - 1 implies !good_site(
                        land0,
                        #[trigger] tried[i],
                        player,
                    ) by {
                        assert(tried[i] == before[i]);
                    }
                    assert forall|i: int| 0 <= i < tried.len() implies on_ring(
                        #[trigger] tried[i],
                        Vec2::origin(),
                        MAP_SIZE / 10,
                        MAP_SIZE / 2,
                    ) by {
                        if i < before.len() {
                            assert(tried[i] == before[i]);
                        }
                    }
                }
                if self.site_ok(&place, &player) {
                    site = Some(place);
                }
                tries += 1;
            }
            let ghost mut pieces: Seq<Food> = Seq::empty();
            assert(gathered(done) + pieces == gathered(done));
            match site {
                Some(place) => {
                    let count: i32 = gen_range(5, 25);
                    let ghost issued1 = self.world@.food_issued;
                    assert(food_site(place, land0, player));
                    let mut k: i32 = 0;
                    while k < count
                        invariant
                            0 <= k <= count < 25,
                            self.wf(),
                            land0 == old(self).world@,
                            larder0 == old(self).larder(),
                            self.objs == old(self).objs,
                            self.spawn_queue == old(self).spawn_queue,
                            self.player_id == old(self).player_id,
                            self.state == old(self).state,
                            self.load_timer == old(self).load_timer,
                            self.food_timer == old(self).food_timer,
                            self.world.marker == old(self).world.marker,
                            self.world.hive == old(self).world.hive,
                            self.world.collision == old(self).world.collision,
                            self.world.map_tl == old(self).world.map_tl,
                            self.world@.food_size == land0.food_size,
                            land0.food_issued <= issued1 <= self.world@.food_issued <= issued1 + k,
                            keeps_food(land0.food, self.world@.food),
                            food_site(place, land0, player),
                            forall|id: FoodID|
                                land0.food_issued < id <= self.world@.food_issued ==> #[trigger] holds_id(
                                    self.world@.food,
                                    id,
                                ) && fresh_food(item_of(self.world@.food, id), land0, player),
                            pieces.len() == k,
                            forall|j: int|
                                0 <= j < pieces.len() ==> rolled_food(#[trigger] pieces[j])
                                    && on_ring(pieces[j].pos, place, ANT_RAD as int, ANT_RAD * 6),
                            self.larder() == stocked(
                                larder0,
                                land0.food_size,
                                gathered(done) + pieces,
                            ),
                        decreases count - k,
                    {
                        let ghost mid = self.world@.food;
                        let ghost issued = self.world@.food_issued;
                        let ghost laid = pieces;
                        let at = random_ring_point(&place, ANT_RAD, ANT_RAD * 6);
                        let f = Food::new(&at);
                        self.stock(f);
                        proof {
                            lemma_keeps_food_chain(land0.food, mid, self.world@.food);
                            assert(f.pos == at);
                            assert(rolled_food(f));
                            assert(fresh_food(f, land0, player));
                            assert forall|id: FoodID|
                                land0.food_issued < id <= self.world@.food_issued implies #[trigger] holds_id(
                                self.world@.food,
                                id,
                            ) && fresh_food(item_of(self.world@.food, id), land0, player) by {
                                if id <= issued {
                                    assert(holds_id(mid, id));
                                }
                            }
                            pieces = pieces.push(f);
                            assert forall|j: int| 0 <= j < pieces.len() implies rolled_food(
                                #[trigger] pieces[j],
                            ) && on_ring(pieces[j].pos, place, ANT_RAD as int, ANT_RAD * 6) by {
                                if j < laid.len() {
                                    assert(pieces[j] == laid[j]);
                                }
                            }
                            let all = gathered(done) + pieces;
                            assert(all.drop_last() == gathered(done) + laid);
                            assert(all.last() == f);
                        }
                        k += 1;
                    }
                },
                None => {},
            }
            proof {
                let made = Cluster { tries: tried, pieces };
                let more = done.push(made);
                assert(more.drop_last() == done);
                assert(gathered(more) == gathered(done) + pieces);
                assert(cluster_drawn(made, land0, player));
                assert forall|i: int| 0 <= i < more.len() implies cluster_drawn(
                    #[trigger] more[i],
                    land0,
                    player,
                ) by {
                    if i < done.len() {
                        assert(more[i] == done[i]);
                    }
                }
                done = more;
            }
            cluster += 1;
        }
    }

    /// Whether `after` is this game with `count` ants tried round `at`:
    /// nothing has changed but that the ants that can stand where chance put
    /// them have got new slots, in their order.
    pub open spec fn colonised(self, after: Gameplay, at: Vec2, count: int) -> bool {
        &&& after.world == self.world
        &&& after.spawn_queue == self.spawn_queue
        &&& after.player_id == self.player_id
        &&& after.state == self.state
        &&& after.load_timer == self.load_timer
        &&& after.food_timer == self.food_timer
        &&& after.objs.to_be_destroyed == self.objs.to_be_destroyed
        &&& self.objs.slots().len() <= after.objs.slots().len() <= self.objs.slots().len() + count
        &&& after.objs.slots().subrange(0, self.objs.slots().len() as int) == self.objs.slots()
        &&& forall|i: int|
            self.objs.slots().len() <= i < after.objs.slots().len() ==> (
            #[trigger] after.objs.slots()[i] matches Some(g) && spawned_ant(g@, at, self.world@))
        &&& exists|spots: Seq<Spot>|
            spots.len() == count && (forall|i: int|
                0 <= i < spots.len() ==> ant_spot(#[trigger] spots[i], at)) && after.objs.things()
                == #[trigger] peopled(self.objs.things(), spots, self.world@)
    }

    /// Puts `count` new ants round `at`, each at a chance point from one
    /// ant's radius to three away, and none where it could not stand.
    pub fn spawn_ants(&mut self, at: &Vec2, count: usize)
        requires
            old(self).wf(),
        ensures
            final(self).wf(),
            old(self).colonised(*final(self), *at, count as int),
    {
        let ghost first = self.objs.slots();
        let ghost things0 = self.objs.things();
        let ghost mut spots: Seq<Spot> = Seq::empty();
        let mut n: usize = 0;
        assert(first.subrange(0, first.len() as int) =~= first);
        while n < count
            invariant
                0 <= n <= count,
                self.wf(),
                self.world == old(self).world,
                self.spawn_queue == old(self).spawn_queue,
                self.player_id == old(self).player_id,
                self.state == old(self).state,
                self.load_timer == old(self).load_timer,
                self.food_timer == old(self).food_timer,
                self.objs.to_be_destroyed == old(self).objs.to_be_destroyed,
                first == old(self).objs.slots(),
                things0 == old(self).objs.things(),
                first.len() <= self.objs.slots().len() <= first.len() + n,
                self.objs.slots().subrange(0, first.len() as int) == first,
                forall|i: int|
                    first.len() <= i < self.objs.slots().len() ==> (
                    #[trigger] self.objs.slots()[i] matches Some(g) && spawned_ant(
                        g@,
                        *at,
                        self.world@,
                    )),
                spots.len() == n,
                forall|i: int| 0 <= i < spots.len() ==> ant_spot(#[trigger] spots[i], *at),
                self.objs.things() == peopled(things0, spots, self.world@),
            decreases count - n,
        {
            let pos = random_ring_point(at, ANT_RAD, ANT_RAD * 3);
            let ghost tried = spots;
            let ghost mut lot: int = 0;
            if !self.world.is_collision(&pos) {
                let ghost slots = self.objs.slots();
                let ant = Gobj::new_ant(&pos);
                assert(spawned_ant(ant@, *at, self.world@));
                proof {
                    lot = choose|lot: int| 0 <= lot < 1000 && ant@ == #[trigger] Gobj::ant_of(pos, lot);
                }
                self.objs.take_in(ant);
                proof {
                    assert(self.objs.things() =~= taken_in(things_of(slots), ant@));
                    assert forall|i: int| first.len() <= i < self.objs.slots().len() implies (
                    #[trigger] self.objs.slots()[i] matches Some(g) && spawned_ant(
                        g@,
                        *at,
                        self.world@,
                    )) by {
                        if i < slots.len() {
                            assert(self.objs.slots()[i] == slots[i]);
                        }
                    }
                    assert(self.objs.slots().subrange(0, first.len() as int) =~= slots.subrange(
                        0,
                        first.len() as int,
                    ));
                    assert forall|i: int| 0 <= i < self.objs.slots().len() implies (
                    #[trigger] self.objs.slots()[i] matches Some(g) ==> g.wf() && g@.placed_well(
                        self.world@,
                    )) by {
                        if i < slots.len() {
                            assert(self.objs.slots()[i] == slots[i]);
                        }
                    }
                }
            }
            proof {
                spots = tried.push(Spot { pos, lot });
                assert(spots.drop_last() == tried);
                assert forall|i: int| 0 <= i < spots.len() implies ant_spot(#[trigger] spots[i], *at) by {
                    if i < tried.len() {
                        assert(spots[i] == tried[i]);
                    }
                }
            }
            n += 1;
        }
    }

    /// Whether `after` is this game after the first part of a tick of the
    /// length `d`, with `chances[i]` for the object `i`: the hive has
    /// starved, every object has had its turn, in the order of the numbers,
    /// the markers have faded, the food field has lost its empty buckets, and
    /// the game is over if the hive has no life left or the player gave up.
    pub open spec fn begun(
        self,
        after: Gameplay,
        d: int,
        input: Input,
        lose: bool,
        chances: Seq<Chance>,
    ) -> bool {
        &&& after.world@ == settled(
            pass(
                self.objs.things(),
                starved(self.world@, d),
                d,
                input,
                chances,
                self.objs.slots().len() as int,
            ).land,
            d,
        )
        &&& after.objs.things() == swept(
            pass(
                self.objs.things(),
                starved(self.world@, d),
                d,
                input,
                chances,
                self.objs.slots().len() as int,
            ).things,
            self.objs.to_be_destroyed@ + casualties(
                self.objs.things(),
                d,
                self.objs.slots().len() as int,
            ),
        )
        &&& after.objs.to_be_destroyed@.len() == 0
        &&& queue_announces(
            self.spawn_queue@,
            after.spawn_queue@,
            pass(
                self.objs.things(),
                starved(self.world@, d),
                d,
                input,
                chances,
                self.objs.slots().len() as int,
            ).announced,
        )
        &&& after.state == if after.world@.hive.life < 0 || lose {
            GameState::Over
        } else {
            self.state
        }
        &&& after.player_id == self.player_id
        &&& after.load_timer == self.load_timer
        &&& after.food_timer == self.food_timer
    }

    /// The first part of a tick of the length `d`: the hive starves, every
    /// object takes its turn, the markers fade, the food field loses its
    /// empty buckets, and the game is over if the hive has no life left or
    /// the player gives up.
    pub fn begin(&mut self, d: i32, input: &Input, lose: bool, chances: &Vec<Chance>)
        requires
            old(self).wf(),
            chances@.len() == old(self).objs.slots().len(),
        ensures
            final(self).wf(),
            old(self).begun(*final(self), d as int, *input, lose, chances@),
    {
        let ghost things0 = self.objs.things();
        let ghost land0 = starved(self.world@, d as int);
        let count: usize = self.objs.next_id;
        let ghost n = count as int;
        let ghost doomed0 = self.objs.to_be_destroyed@;
        let ghost queue0 = self.spawn_queue@;
        self.world.hive.update(d);
        assert(self.world@ == land0);
        proof {
            lemma_sound_moves(self.objs.slots(), old(self).world@, self.world@);
        }
        self.objs.advance(&mut self.world, &mut self.spawn_queue, d, input, chances);
        let ghost land1 = self.world@;
        self.world.marker.update(d);
        self.world.food.update(d);
        proof {
            let p = pass(things0, land0, d as int, *input, chances@, n);
            lemma_pass_frame(things0, land0, d as int, *input, chances@, n);
            lemma_pruned_wf(land1.food, land1.food_size, land1.food_issued);
            assert(self.world@ == settled(land1, d as int));
            lemma_sound_moves(self.objs.slots(), land1, self.world@);
            lemma_pass_kind(things0, land0, d as int, *input, chances@, n, self.player_id as int);
            let doomed = doomed0 + casualties(things0, d as int, n);
            assert(!doomed.contains(self.player_id)) by {
                if doomed.contains(self.player_id) {
                    let t = choose|t: int| 0 <= t < doomed.len() && doomed[t] == self.player_id;
                    if t < doomed0.len() {
                        assert(doomed0[t] == self.player_id);
                    } else {
                        assert(casualties(things0, d as int, n)[t - doomed0.len()] == self.player_id);
                        lemma_casualties(things0, d as int, n, self.player_id);
                    }
                }
            }
            assert(p.things.len() == things0.len());
            assert(self.objs.things().len() == p.things.len());
            assert(things_of(self.objs.slots()).len() == self.objs.slots().len());
            assert(things0.len() == old(self).objs.slots().len());
            assert(self.objs.things()[self.player_id as int] == p.things[self.player_id as int]);
            assert(things0[self.player_id as int] is Some);
            assert forall|i: int| 0 <= i < self.spawn_queue@.len() implies (#[trigger] slotted(
                self.spawn_queue@,
            )[i] matches Some(g) ==> g.wf() && g@.placed_well(self.world@)) by {
                let g = self.spawn_queue@[i];
                if i < queue0.len() {
                    assert(self.spawn_queue@.subrange(0, queue0.len() as int)[i] == g);
                    assert(slotted(queue0)[i] == Some(g));
                    lemma_placed_moves(g@, old(self).world@, self.world@);
                } else {
                    assert(self.spawn_queue@[queue0.len() + (i - queue0.len())].wf());
                    assert(g@.announces(p.announced[i - queue0.len()]));
                }
            }
        }
        if self.world.hive.lost() || lose {
            self.state = GameState::Over;
        }
    }

    /// Whether `after` is this game, and `q1` the signal queue `q0`, after
    /// the last part of a tick of the length `d`: a delivery by the player
    /// has opened the preview, the load timer has run, a player on the hive
    /// has gone down into the nest and been put on the doorstep, the objects
    /// in waiting have joined the others, and the hive has its Home marker,
    /// announced by a burst in waiting if it was laid now.
    pub open spec fn finished(self, after: Gameplay, q0: Seq<Signal>, q1: Seq<Signal>, d: int) -> bool {
        &&& after.state == if self.world@.hive.player_gave {
            GameState::Preview(PREVIEW_LENGTH)
        } else {
            self.state
        }
        &&& after.load_timer == if self.load_timer >= 0 {
            sat(self.load_timer - d) as i32
        } else {
            self.load_timer
        }
        &&& after.food_timer == self.food_timer
        &&& after.player_id == self.player_id
        &&& self.leaves(d) ==> q1 == seq![Signal::SetScene(0)] + q0 && after.objs.slots()
            == joined(
            self.objs.slots().update(
                self.player_id as int,
                Some(Gobj::Player(self.player().moved_to(doorstep()))),
            ),
            self.spawn_queue@,
        )
        &&& !self.leaves(d) ==> q1 == q0 && after.objs.slots() == joined(
            self.objs.slots(),
            self.spawn_queue@,
        )
        &&& after.objs.to_be_destroyed == self.objs.to_be_destroyed
        &&& after.world@.hive == (Hive { life: self.world@.hive.life, player_gave: false })
        &&& after.world@.food == self.world@.food
        &&& after.world@.food_size == self.world@.food_size
        &&& after.world@.food_issued == self.world@.food_issued
        &&& after.world@.collision == self.world@.collision
        &&& after.world@.map_tl == self.world@.map_tl
        &&& after.world@.marker_size == self.world@.marker_size
        &&& after.world@.markers == markers_left(
            self.world@.markers,
            self.world@.marker_size,
            hive_marker(self.world@),
        )
        &&& queue_grown(
            Seq::empty(),
            after.spawn_queue@,
            self.world@.markers,
            self.world@.marker_size,
            hive_marker(self.world@),
        )
    }

    /// The last part of a tick of the length `d`: a delivery by the player
    /// opens the colony's preview; the load timer runs; a player on the hive
    /// goes down into the nest, once the timer has run out, and is put on
    /// the doorstep; the objects in waiting join the others; and the hive
    /// gets its Home marker, if it has lost it.
    pub fn finish(&mut self, q: &mut SignalQueue, d: i32)
        requires
            old(self).wf(),
        ensures
            final(self).wf(),
            old(self).finished(*final(self), old(q)@, final(q)@, d as int),
    {
        let ghost land0 = self.world@;
        if self.world.hive.did_player_give() {
            self.state = GameState::Preview(PREVIEW_LENGTH);
        }
        if self.load_timer >= 0 {
            self.load_timer = saturate(self.load_timer as i64 - d as i64);
        }
        proof {
            lemma_sound_moves(self.objs.slots(), land0, self.world@);
        }
        let home = Vec2::zero();
        if self.player_pos().within(home, PLAYER_PICKUP_RANGE) && self.load_timer <= 0 {
            q.send(Signal::SetScene(0));
            let ghost slots = self.objs.slots();
            let moved = match self.objs.get_obj(self.player_id) {
                Gobj::Player(p) => Player {
                    pos: Vec2 { x: 0, y: ANT_HOME_DEPOSIT_RANGE },
                    marker_type: p.marker_type,
                    last_marker_pos: p.last_marker_pos,
                    carried_food: p.carried_food,
                },
                _ => vstd::pervasive::unreached(),
            };
            self.objs.replace(self.player_id, Gobj::Player(moved));
            proof {
                assert forall|i: int| 0 <= i < self.objs.slots().len() implies (
                #[trigger] self.objs.slots()[i] matches Some(g) ==> g.wf() && g@.placed_well(
                    self.world@,
                )) by {
                    if i != self.player_id {
                        assert(self.objs.slots()[i] == slots[i]);
                    }
                }
            }
        }
        let ghost queue = self.spawn_queue@;
        let ghost slots = self.objs.slots();
        let mut waiting: Vec<Gobj> = Vec::new();
        core::mem::swap(&mut waiting, &mut self.spawn_queue);
        let mut taken: Vec<Gobj> = Vec::new();
        let mut left: usize = waiting.len();
        while left > 0
            invariant
                0 <= left <= queue.len(),
                waiting@ == queue.take(left as int),
                taken@.len() == queue.len() - left,
                forall|j: int|
                    0 <= j < taken@.len() ==> #[trigger] taken@[j] == queue[queue.len() - 1 - j],
            decreases left,
        {
            match waiting.pop() {
                Some(g) => {
                    taken.push(g);
                },
                None => {},
            }
            left -= 1;
            assert(waiting@ =~= queue.take(left as int));
        }
        let mut back: usize = taken.len();
        while back > 0
            invariant
                0 <= back <= queue.len(),
                taken@.len() == back,
                forall|j: int| 0 <= j < back ==> #[trigger] taken@[j] == queue[queue.len() - 1 - j],
                self.objs.wf(),
                self.objs.slots() == joined(slots, queue.take(queue.len() - back)),
                self.objs.to_be_destroyed == old(self).objs.to_be_destroyed,
                self.player_id == old(self).player_id,
                self.world@ == acknowledged(land0),
                self.spawn_queue@.len() == 0,
                self.state == if land0.hive.player_gave {
                    GameState::Preview(PREVIEW_LENGTH)
                } else {
                    old(self).state
                },
                self.load_timer == if old(self).load_timer >= 0 {
                    sat(old(self).load_timer - d) as i32
                } else {
                    old(self).load_timer
                },
                self.food_timer == old(self).food_timer,
            decreases back,
        {
            let ghost before = self.objs.slots();
            match taken.pop() {
                Some(g) => {
                    self.objs.take_in(g);
                    assert(g == queue[queue.len() - back]);
                },
                None => {},
            }
            proof {
                let more = queue.take(queue.len() - back + 1);
                assert(more.drop_last() == queue.take(queue.len() - back));
                assert(more.last() == queue[queue.len() - back]);
            }
            back -= 1;
        }
        assert(queue.take(queue.len() as int) == queue);
        proof {
            lemma_joined(slots, queue);
            assert forall|i: int| 0 <= i < self.objs.slots().len() implies (
            #[trigger] self.objs.slots()[i] matches Some(g) ==> g.wf() && g@.placed_well(self.world@)) by {
                if i < slots.len() {
                    assert(self.objs.slots()[i] == slots[i]);
                } else {
                    let j = i - slots.len();
                    assert(self.objs.slots()[i] == Some(queue[j]));
                    assert(slotted(queue)[j] == Some(queue[j]));
                    lemma_placed_moves(queue[j]@, land0, self.world@);
                }
            }
            assert(self.objs.slots()[self.player_id as int] == slots[self.player_id as int]);
        }
        let around = self.world.marker.local_markers(&home, &home, None);
        let mut marked: bool = false;
        let mut j: usize = 0;
        assert(home.plus(home) == Vec2::origin());
        while j < around.len()
            invariant
                0 <= j <= around.len(),
                marked == exists|i: int| 0 <= i < j && (#[trigger] around@[i]).place() == Vec2::origin(),
            decreases around.len() - j,
        {
            if around[j].pos().x == 0 && around[j].pos().y == 0 {
                marked = true;
            }
            j += 1;
        }
        assert(marked == home_marked(land0));
        assert(self.spawn_queue@ =~= Seq::<Gobj>::empty());
        if !marked {
            self.world.marker.create_marker(Marker::Home(home, HOME_MARKER_LIFE), &mut self.spawn_queue);
            proof {
                lemma_sound_moves(
                    self.objs.slots(),
                    acknowledged(land0),
                    self.world@,
                );
            }
        }
    }

    /// Whether the player goes down into the nest at the end of a tick of
    /// the length `d`: it stands on the hive, and the load timer has run
    /// out.
    pub open spec fn leaves(&self, d: int) -> bool {
        let timer = if self.load_timer >= 0 {
            sat(self.load_timer - d)
        } else {
            self.load_timer as int
        };
        self.player().pos.nearer(Vec2::origin(), PLAYER_PICKUP_RANGE as int) && timer <= 0
    }

    /// Counts the food timer down by `d` and returns whether food is to be
    /// spawned now: the timer had run out before, and the hive is less than
    /// nine tenths full.
    pub fn food_due(&mut self, d: i32) -> (due: bool)
        ensures
            due == old(self).hungry(),
            final(self).food_timer == if old(self).food_timer >= 0 {
                sat(old(self).food_timer - d) as i32
            } else {
                old(self).food_timer
            },
            final(self).objs == old(self).objs,
            final(self).world == old(self).world,
            final(self).spawn_queue == old(self).spawn_queue,
            final(self).player_id == old(self).player_id,
            final(self).state == old(self).state,
            final(self).load_timer == old(self).load_timer,
    {
        if self.food_timer >= 0 {
            self.food_timer = saturate(self.food_timer as i64 - d as i64);
            false
        } else {
            self.world.hive.state_as_float() < HUNGER
        }
    }

    /// The colony's preview after a time `d`: over when its time has run
    /// out.
    pub open spec fn previewed(left: int, d: int) -> GameState {
        if left - d < 0 {
            GameState::On
        } else {
            GameState::Preview(sat(left - d) as i32)
        }
    }

    /// Whether `after` is this game, and `q1` the signal queue `q0`, after
    /// one tick under `frame`, its time brought within the shortest and the
    /// longest tick. While the game is on, the tick is a first part with
    /// some numbers within their bounds for what is left to chance, then a
    /// middle part, then a last part. During the preview only its time runs;
    /// when the game is over, only the restart key does anything.
    pub open spec fn ticked(self, after: Gameplay, q0: Seq<Signal>, q1: Seq<Signal>, frame: Frame) -> bool {
        &&& after.player_id == self.player_id
        &&& after.world@.collision == self.world@.collision
        &&& after.world@.map_tl == self.world@.map_tl
        &&& after.objs.slots().len() >= self.objs.slots().len()
        &&& match self.state {
            GameState::Preview(left) => {
                &&& after == (Gameplay {
                    state: Self::previewed(left as int, clamped(frame.d as int)),
                    ..self
                })
                &&& q1 == q0
            },
            GameState::Over => {
                &&& after == (Gameplay {
                    state: if frame.restart {
                        GameState::On
                    } else {
                        GameState::Over
                    },
                    ..self
                })
                &&& q1 == q0
            },
            GameState::On => exists|chances: Seq<Chance>, first: Gameplay, then: Gameplay|
                chances.len() == self.objs.slots().len() && (forall|i: int|
                    0 <= i < chances.len() ==> (#[trigger] chances[i]).wf()) && #[trigger] self.begun(
                    first,
                    clamped(frame.d as int),
                    frame.input,
                    frame.lose,
                    chances,
                ) && first.restocked(then, clamped(frame.d as int)) && #[trigger] then.finished(
                    after,
                    q0,
                    q1,
                    clamped(frame.d as int),
                ),
        }
    }

    /// One tick. The time of the frame is brought within the shortest and
    /// the longest tick. While the game is on, the tick is `begin`, then a
    /// spawning of food where one is due, then `finish`, with numbers drawn
    /// here for what is left to chance. During the preview only its time
    /// runs; when the game is over, only the restart key does anything.
    pub fn update(&mut self, q: &mut SignalQueue, frame: &Frame)
        requires
            old(self).wf(),
        ensures
            final(self).wf(),
            old(self).ticked(*final(self), old(q)@, final(q)@, *frame),
    {
        let d: i32 = Self::clamp_tick(frame.d);
        match self.state {
            GameState::On => {
                let n: usize = self.objs.next_id;
                let mut chances: Vec<Chance> = Vec::new();
                let mut i: usize = 0;
                while i < n
                    invariant
                        0 <= i <= n,
                        chances@.len() == i,
                        forall|j: int| 0 <= j < i ==> (#[trigger] chances@[j]).wf(),
                    decreases n - i,
                {
                    chances.push(Chance::draw());
                    i += 1;
                }
                self.begin(d, &frame.input, frame.lose, &chances);
                let ghost first = *self;
                proof {
                    lemma_pass_frame(
                        old(self).objs.things(),
                        starved(old(self).world@, d as int),
                        d as int,
                        frame.input,
                        chances@,
                        n as int,
                    );
                    assert(self.objs.things().len() == n);
                    assert(self.objs.slots().len() == n);
                }
                if self.food_due(d) {
                    self.spawn_food();
                    let ghost fed = *self;
                    self.food_timer = gen_range(FOOD_TIMER_LOW, FOOD_TIMER_HIGH);
                    assert((Gameplay { food_timer: first.food_timer, ..*self }) == fed);
                }
                let ghost then = *self;
                assert(first.restocked(then, d as int));
                self.finish(q, d);
                proof {
                    lemma_joined(then.objs.slots(), then.spawn_queue@);
                    lemma_joined(
                        then.objs.slots().update(
                            then.player_id as int,
                            Some(Gobj::Player(then.player().moved_to(doorstep()))),
                        ),
                        then.spawn_queue@,
                    );
                }
                assert(old(self).begun(first, d as int, frame.input, frame.lose, chances@));
                assert(then.finished(*self, old(q)@, q@, d as int));
            },
            GameState::Preview(left) => {
                let rest: i64 = left as i64 - d as i64;
                if rest < 0 {
                    self.state = GameState::On;
                } else {
                    self.state = GameState::Preview(saturate(rest));
                }
            },
            GameState::Over => {
                if frame.restart {
                    self.restart();
                }
            },
        }
    }

    /// The game as it is handed over when the colony has run in: on, even
    /// if the colony died meanwhile.
    pub open spec fn woken(self) -> Gameplay {
        if self.state is Over {
            Gameplay { state: GameState::On, ..self }
        } else {
            self
        }
    }

    /// Whether `after` is this game after the colony has run in under
    /// `frame`: a hundred ants were tried round the hive, then two hundred
    /// ticks passed, each like `frame` and each from the game that the one
    /// before it left, and the game was put on again if it was over.
    pub open spec fn run_in(self, after: Gameplay, frame: Frame) -> bool {
        exists|steps: Seq<Gameplay>|
            #[trigger] steps.len() == PRESIM_TICKS + 1 && self.colonised(
                steps[0],
                Vec2::origin(),
                FIRST_ANTS as int,
            ) && (forall|i: int| 0 <= i < PRESIM_TICKS ==> #[trigger] follows(steps, i, frame)) && after
                == steps[PRESIM_TICKS as int].woken()
    }

    /// Runs the colony in before the game begins: a hundred ants come out
    /// round the hive, and two hundred ticks pass, each like `frame`. The
    /// signals of those ticks are dropped.
    pub fn presim(&mut self, frame: &Frame)
        requires
            old(self).wf(),
        ensures
            final(self).wf(),
            final(self).player_id == old(self).player_id,
            final(self).world@.collision == old(self).world@.collision,
            final(self).world@.map_tl == old(self).world@.map_tl,
            final(self).objs.slots().len() >= old(self).objs.slots().len(),
            old(self).run_in(*final(self), *frame),
    {
        let home = Vec2::zero();
        self.spawn_ants(&home, FIRST_ANTS);
        let ghost mut steps: Seq<Gameplay> = seq![*self];
        let mut q = SignalQueue::new();
        let mut tick: usize = 0;
        while tick < PRESIM_TICKS
            invariant
                0 <= tick <= PRESIM_TICKS,
                self.wf(),
                self.player_id == old(self).player_id,
                self.world@.collision == old(self).world@.collision,
                self.world@.map_tl == old(self).world@.map_tl,
                self.objs.slots().len() >= old(self).objs.slots().len(),
                steps.len() == tick + 1,
                steps.last() == *self,
                old(self).colonised(steps[0], Vec2::origin(), FIRST_ANTS as int),
                forall|i: int| 0 <= i < tick ==> #[trigger] follows(steps, i, *frame),
            decreases PRESIM_TICKS - tick,
        {
            let ghost before = steps;
            let ghost q0 = q@;
            self.update(&mut q, frame);
            proof {
                steps = before.push(*self);
                assert(before[tick as int].ticked(steps[tick + 1], q0, q@, *frame));
                assert(steps[tick as int] == before[tick as int]);
                assert(follows(steps, tick as int, *frame));
                assert forall|i: int| 0 <= i < tick + 1 implies #[trigger] follows(steps, i, *frame) by {
                    if i < tick {
                        assert(follows(before, i, *frame));
                        assert(steps[i] == before[i]);
                        assert(steps[i + 1] == before[i + 1]);
                    }
                }
            }
            tick += 1;
        }
        match self.state {
            GameState::Over => {
                self.restart();
            },
            _ => {},
        }
        assert(*self == steps[PRESIM_TICKS as int].woken());
    }
}

/// Whether the game `steps[i + 1]` is the game `steps[i]` one tick under
/// `frame` later, whatever signals were waiting and were sent.
pub open spec fn follows(steps: Seq<Gameplay>, i: int, frame: Frame) -> bool {
    exists|q0: Seq<Signal>, q1: Seq<Signal>| #[trigger] steps[i].ticked(steps[i + 1], q0, q1, frame)
}

/// Objects that join keep the slots that were there and come behind them
/// in their order, each in a slot of its own.
pub proof fn lemma_joined(slots: Seq<Option<Gobj>>, queue: Seq<Gobj>)
    ensures
        slots.len() <= joined(slots, queue).len() <= slots.len() + queue.len(),
        joined(slots, queue).len() < usize::MAX ==> joined(slots, queue).len() == slots.len()
            + queue.len(),
        forall|i: int| 0 <= i < slots.len() ==> #[trigger] joined(slots, queue)[i] == slots[i],
        forall|i: int|
            slots.len() <= i < joined(slots, queue).len() ==> #[trigger] joined(slots, queue)[i]
                == Some(queue[i - slots.len()]),
    decreases queue.len(),
{
    if queue.len() > 0 {
        lemma_joined(slots, queue.drop_last());
        let before = joined(slots, queue.drop_last());
        assert forall|i: int| slots.len() <= i < joined(slots, queue).len() implies #[trigger] joined(
            slots,
            queue,
        )[i] == Some(queue[i - slots.len()]) by {
            if i < before.len() {
                assert(before[i] == Some(queue.drop_last()[i - slots.len()]));
            }
        }
    }
}

/// Whether an object stands in a free place does not change with a land
/// that keeps its collision field and the corner of its map.
pub proof fn lemma_placed_moves(thing: Thing, before: Land, after: Land)
    requires
        before.collision == after.collision,
        before.map_tl == after.map_tl,
    ensures
        thing.placed_well(before) == thing.placed_well(after),
{
}

/// Objects that are sound in a land are sound in every land with the same
/// collision field and map corner.
pub proof fn lemma_sound_moves(slots: Seq<Option<Gobj>>, before: Land, after: Land)
    requires
        before.collision == after.collision,
        before.map_tl == after.map_tl,
        all_sound(slots, before),
    ensures
        all_sound(slots, after),
{
    assert forall|i: int| 0 <= i < slots.len() implies (#[trigger] slots[i] matches Some(g) ==> g.wf()
        && g@.placed_well(after)) by {
        if slots[i] is Some {
            lemma_placed_moves(slots[i]->0@, before, after);
        }
    }
}

/// A pass leaves a player a player.
pub proof fn lemma_pass_kind(
    things: Seq<Option<Thing>>,
    land: Land,
    d: int,
    input: Input,
    chances: Seq<Chance>,
    n: int,
    j: int,
)
    requires
        0 <= n <= things.len(),
        0 <= j < things.len(),
        things[j] matches Some(Thing::Player(_)),
    ensures
        pass(things, land, d, input, chances, n).things[j] matches Some(Thing::Player(_)),
    decreases n,
{
    reveal(Thing::stepped);
    if n > 0 {
        lemma_pass_kind(things, land, d, input, chances, n - 1, j);
        lemma_pass_frame(things, land, d, input, chances, n - 1);
    }
}

/// Only bursts are among the casualties of a tick.
pub proof fn lemma_casualties(things: Seq<Option<Thing>>, d: int, n: int, j: GameObjectID)
    requires
        0 <= n <= things.len(),
        n <= usize::MAX,
        casualties(things, d, n).contains(j),
    ensures
        j < n,
        things[j as int] matches Some(Thing::Particles(_)),
    decreases n,
{
    if n > 0 {
        let rest = casualties(things, d, n - 1);
        let all = casualties(things, d, n);
        let t = choose|t: int| 0 <= t < all.len() && all[t] == j;
        if t < rest.len() {
            assert(rest[t] == j);
            lemma_casualties(things, d, n - 1, j);
        } else {
            assert(all == rest.push((n - 1) as usize));
            assert(all[rest.len() as int] == (n - 1) as usize);
            assert(j == n - 1);
        }
    } else {
        assert(casualties(things, d, n).len() == 0);
    }
}

/// A food field without its empty buckets is well formed if it was.
pub proof fn lemma_pruned_wf(cells: FoodCells, size: int, issued: int)
    requires
        field_wf(cells, size, issued),
    ensures
        field_wf(pruned(cells), size, issued),
{
    let after = pruned(cells);
    assert forall|c: (int, int), id: FoodID|
        after.contains_key(c) && #[trigger] after[c].contains_key(id) implies crate::grid::cell_of(
        after[c][id].pos,
        size,
    ) == c && 0 < id <= issued by {
        assert(cells[c].contains_key(id));
    }
    assert forall|c1: (int, int), c2: (int, int), id: FoodID|
        after.contains_key(c1) && #[trigger] after[c1].contains_key(id) && after.contains_key(c2)
            && #[trigger] after[c2].contains_key(id) implies c1 == c2 by {
        assert(cells[c1].contains_key(id));
        assert(cells[c2].contains_key(id));
    }
}

/// A piece put into a well-formed field under the next number leaves the
/// pieces that were there as they were.
pub proof fn lemma_put_keeps_food(cells: FoodCells, size: int, issued: int, f: Food)
    requires
        field_wf(cells, size, issued),
        issued < usize::MAX,
    ensures
        keeps_food(cells, with_food(cells, size, (issued + 1) as usize, f)),
{
    let id = (issued + 1) as usize;
    let after = with_food(cells, size, id, f);
    lemma_put_keeps_wf(cells, size, issued, f);
    assert forall|x: FoodID| #[trigger] holds_id(cells, x) implies holds_id(after, x) && item_of(
        after,
        x,
    ) == item_of(cells, x) by {
        let c1 = choose|c1: (int, int)| cells.contains_key(c1) && #[trigger] cells[c1].contains_key(x);
        lemma_item_at(cells, c1, x);
        assert(after.contains_key(c1) && after[c1].contains_key(x));
        lemma_item_at(after, c1, x);
    }
}

/// A piece put into a well-formed field under the next number is held
/// under that number.
pub proof fn lemma_put_holds(cells: FoodCells, size: int, issued: int, f: Food)
    requires
        field_wf(cells, size, issued),
        issued < usize::MAX,
    ensures
        holds_id(with_food(cells, size, (issued + 1) as usize, f), (issued + 1) as usize),
        item_of(with_food(cells, size, (issued + 1) as usize, f), (issued + 1) as usize) == f,
{
    let id = (issued + 1) as usize;
    let after = with_food(cells, size, id, f);
    let c = crate::grid::cell_of(f.pos, size);
    lemma_put_keeps_wf(cells, size, issued, f);
    assert(after.contains_key(c) && after[c].contains_key(id));
    lemma_item_at(after, c, id);
}

/// What keeps the food of a field that kept the food of another keeps the
/// food of that other.
pub proof fn lemma_keeps_food_chain(a: FoodCells, b: FoodCells, c: FoodCells)
    requires
        keeps_food(a, b),
        keeps_food(b, c),
    ensures
        keeps_food(a, c),
{
    assert forall|id: FoodID| #[trigger] holds_id(a, id) implies holds_id(c, id) && item_of(c, id)
        == item_of(a, id) by {
        assert(holds_id(b, id));
    }
}

} // verus!

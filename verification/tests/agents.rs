use hivesim::ants::{Ant, AntPlan, AntState, Senses};
use hivesim::food::Food;
use hivesim::gobj::{
    Chance, Gobj, Input, ANT_MARKER_DIST, FOOD_MARKER_LIFE, HOME_MARKER_LIFE,
};
use hivesim::hive::{Hive, HIVE_START_LIFE};
use hivesim::markers::{Marker, MarkerKind};
use hivesim::particles::{ParticleStyle, Particles, Spark};
use hivesim::player::Player;
use hivesim::scout::Scout;
use hivesim::vector::Vec2;
use hivesim::world::{Mask, World, MAP_SIZE};

fn open_world() -> World {
    let mut w = World::new(Hive::new());
    w.init(&Mask { width: 64, height: 64, alpha: vec![0; 64 * 64] }, &Vec2::new(MAP_SIZE, MAP_SIZE));
    w
}

fn chance() -> Chance {
    Chance { angle: 100, timer: 2000, sway: 0, course: 0, jitter: 50, reach: 60000 }
}

fn nothing() -> Senses {
    Senses { food: None, food_marker: None, home_marker: None }
}

fn food_at(x: i32, y: i32) -> Food {
    Food::with(&Vec2::new(x, y), 2000, 0, 0)
}

fn ant_in(state: AntState) -> Ant {
    Ant {
        pos: Vec2::new(0, 0),
        target: Vec2::new(1000, 0),
        target_change_cooldown: 500,
        last_marker_pos: Vec2::new(0, 0),
        state,
    }
}

#[test]
fn a_roaming_ant_steers_on() {
    let ant = ant_in(AntState::Wander(500, 0, 0));
    let plan = ant.plan(&nothing(), 100, &chance());
    assert_eq!(
        plan,
        AntPlan {
            state: AntState::Wander(400, 0, 0),
            target: Vec2::new(1800, 0),
            next_target: Vec2::new(1000, 0),
            next_marker: Some(Marker::Home(Vec2::new(0, 0), HOME_MARKER_LIFE)),
            pickup: None,
            delivery: None,
        }
    );
    assert_eq!(Ant::steer(&Vec2::new(0, 0), &Vec2::new(1000, 0), 0, 0, 100), Vec2::new(1800, 0));
    assert_eq!(Ant::steer(&Vec2::new(0, 0), &Vec2::new(0, 1000), 1571, 1571, 100), Vec2::new(0, 1800));
    assert_eq!(Ant::steer(&Vec2::new(5, 5), &Vec2::new(5, 5), 0, 3142, 1000), Vec2::new(1005 - 8000, 5));
}

#[test]
fn a_roaming_ant_changes_course_when_its_timer_runs_out() {
    let ant = ant_in(AntState::Wander(50, 7, 9));
    let plan = ant.plan(&nothing(), 100, &chance());
    assert_eq!(plan.state, AntState::Wander(2000, 0, 0));
    assert_eq!(Ant::roam(100, 7, 9, 100, &chance()), (0, 7, 9));
    assert_eq!(Ant::roam(99, 7, 9, 100, &chance()), (2000, 0, 0));
}

#[test]
fn food_in_sight_comes_before_a_trail() {
    let ant = ant_in(AntState::Wander(500, 0, 0));
    let trail = Marker::Food(Vec2::new(20000, 0), FOOD_MARKER_LIFE);
    let senses = Senses {
        food: Some((4, food_at(10000, 0))),
        food_marker: Some(trail),
        home_marker: None,
    };
    let plan = ant.plan(&senses, 100, &chance());
    assert_eq!(plan.state, AntState::GetFood(Vec2::new(10000, 0)));
    assert_eq!(plan.next_marker, Some(Marker::Food(Vec2::new(0, 0), FOOD_MARKER_LIFE)));
    assert_eq!(plan.pickup, None);
    // just within the detection range, and just without
    let edge = Senses { food: Some((4, food_at(35199, 0))), food_marker: Some(trail), home_marker: None };
    assert_eq!(ant.plan(&edge, 100, &chance()).state, AntState::GetFood(Vec2::new(35199, 0)));
    let beyond = Senses { food: Some((4, food_at(35200, 0))), food_marker: Some(trail), home_marker: None };
    assert_eq!(ant.plan(&beyond, 100, &chance()).state, AntState::Follow(Some(trail)));
    assert_eq!(Ant::notice(&edge, &Vec2::new(0, 0)), Some(food_at(35199, 0)));
    assert_eq!(Ant::notice(&beyond, &Vec2::new(0, 0)), None);
    assert_eq!(Ant::notice(&nothing(), &Vec2::new(0, 0)), None);
}

#[test]
fn a_roaming_ant_follows_a_trail() {
    let ant = ant_in(AntState::Wander(500, 0, 0));
    let trail = Marker::Food(Vec2::new(20000, 0), FOOD_MARKER_LIFE);
    let senses = Senses { food: None, food_marker: Some(trail), home_marker: None };
    let plan = ant.plan(&senses, 100, &chance());
    assert_eq!(plan.state, AntState::Follow(Some(trail)));
    assert_eq!(plan.next_marker, Some(Marker::Home(Vec2::new(0, 0), HOME_MARKER_LIFE)));
}

#[test]
fn an_ant_after_food_gives_up_takes_it_or_walks_on() {
    let ant = ant_in(AntState::GetFood(Vec2::new(3000, 0)));
    let gone = ant.plan(&nothing(), 100, &chance());
    assert_eq!(gone.state, AntState::Wander(0, 100, 0));
    assert_eq!(gone.next_marker, None);
    assert_eq!(gone.next_target, Vec2::new(3000, 0));
    assert_eq!(gone.target, Vec2::new(1000, 0));

    let home = Marker::Home(Vec2::new(-20000, 0), HOME_MARKER_LIFE);
    let senses = Senses { food: Some((9, food_at(3000, 0))), food_marker: None, home_marker: Some(home) };
    let take = ant.plan(&senses, 100, &chance());
    assert_eq!(take.state, AntState::GoHome(food_at(3000, 0), Some(home), 0, 0, 0));
    assert_eq!(take.pickup, Some(9));
    assert_eq!(take.next_marker, Some(Marker::Food(Vec2::new(0, 0), FOOD_MARKER_LIFE)));

    let far = ant_in(AntState::GetFood(Vec2::new(3200, 0)));
    let senses = Senses { food: Some((9, food_at(3200, 0))), food_marker: None, home_marker: Some(home) };
    let walk = far.plan(&senses, 100, &chance());
    assert_eq!(walk.state, AntState::GetFood(Vec2::new(3200, 0)));
    assert_eq!(walk.pickup, None);
    assert_eq!(walk.next_target, Vec2::new(3200, 0));
}

#[test]
fn an_ant_on_a_trail_walks_from_marker_to_marker() {
    let here = Marker::Food(Vec2::new(20000, 0), FOOD_MARKER_LIFE);
    let next = Marker::Food(Vec2::new(40000, 0), FOOD_MARKER_LIFE);
    let ant = ant_in(AntState::Follow(Some(here)));
    let senses = Senses { food: None, food_marker: Some(next), home_marker: None };
    let plan = ant.plan(&senses, 100, &chance());
    assert_eq!(plan.state, AntState::Follow(Some(next)));
    assert_eq!(plan.next_target, Vec2::new(20000, 0));
    assert_eq!(plan.next_marker, Some(Marker::Home(Vec2::new(0, 0), HOME_MARKER_LIFE)));

    let seen = Senses { food: Some((1, food_at(100, 0))), food_marker: Some(next), home_marker: None };
    assert_eq!(ant.plan(&seen, 100, &chance()).state, AntState::GetFood(Vec2::new(100, 0)));

    let lost = ant_in(AntState::Follow(None));
    assert_eq!(lost.plan(&senses, 100, &chance()).state, AntState::Wander(0, 100, 0));
    let wrong = ant_in(AntState::Follow(Some(Marker::Home(Vec2::new(1, 1), 5))));
    assert_eq!(wrong.plan(&senses, 100, &chance()).state, AntState::Wander(0, 100, 0));
}

#[test]
fn an_ant_going_home_prefers_home_markers() {
    let home = Marker::Home(Vec2::new(-20000, 0), HOME_MARKER_LIFE);
    let trail = Marker::Food(Vec2::new(20000, 0), FOOD_MARKER_LIFE);
    let by = Marker::Home(Vec2::new(-30000, 0), HOME_MARKER_LIFE);
    let mut ant = ant_in(AntState::GoHome(food_at(1, 1), Some(by), 500, 3, 4));
    ant.pos = Vec2::new(50000, 0);
    let both = Senses { food: None, food_marker: Some(trail), home_marker: Some(home) };
    let plan = ant.plan(&both, 100, &chance());
    assert_eq!(plan.state, AntState::GoHome(food_at(1, 1), Some(home), 500, 3, 4));
    assert_eq!(plan.next_target, Vec2::new(-30000, 0));
    assert_eq!(plan.target, Vec2::new(1000, 0));
    assert_eq!(plan.delivery, None);
    assert_eq!(plan.next_marker, Some(Marker::Food(Vec2::new(50000, 0), FOOD_MARKER_LIFE)));

    let only_trail = Senses { food: None, food_marker: Some(trail), home_marker: None };
    assert_eq!(
        ant.plan(&only_trail, 100, &chance()).state,
        AntState::GoHome(food_at(1, 1), Some(trail), 500, 3, 4)
    );
    assert_eq!(
        ant.plan(&nothing(), 100, &chance()).state,
        AntState::GoHome(food_at(1, 1), None, 500, 3, 4)
    );
}

#[test]
fn an_ant_going_home_without_a_marker_roams() {
    let mut ant = ant_in(AntState::GoHome(food_at(1, 1), None, 50, 0, 0));
    ant.pos = Vec2::new(50000, 0);
    ant.target = Vec2::new(51000, 0);
    let plan = ant.plan(&nothing(), 100, &chance());
    assert_eq!(plan.state, AntState::GoHome(food_at(1, 1), None, 2000, 0, 0));
    assert_eq!(plan.target, Vec2::new(51800, 0));
    assert_eq!(plan.next_target, Vec2::new(51000, 0));
}

#[test]
fn an_ant_at_the_hive_hands_its_food_over() {
    let mut ant = ant_in(AntState::GoHome(food_at(1, 1), None, 50, 0, 0));
    ant.pos = Vec2::new(22399, 0);
    let plan = ant.plan(&nothing(), 100, &chance());
    assert_eq!(plan.state, AntState::Wander(0, 100, 0));
    assert_eq!(plan.delivery, Some(food_at(1, 1)));
    ant.pos = Vec2::new(22400, 0);
    let plan = ant.plan(&nothing(), 100, &chance());
    assert_eq!(plan.delivery, None);
}

#[test]
fn senses_read_the_fields() {
    let mut world = open_world();
    let mut queue: Vec<Gobj> = Vec::new();
    let pos = Vec2::new(30000, 0);
    let zero = Vec2::zero();
    assert_eq!(Ant::sense(&world, &pos, &zero), nothing());
    world.food.put_food(food_at(31000, 0));
    world.food.put_food(food_at(60000, 0));
    // too near to go by
    world.marker.create_marker(Marker::Home(Vec2::new(20000, 0), 5), &mut queue);
    // nearer to the hive than the next
    world.marker.create_marker(Marker::Home(Vec2::new(10000, 0), 6), &mut queue);
    world.marker.create_marker(Marker::Home(Vec2::new(50000, 0), 7), &mut queue);
    // nearer to the ant than the next
    world.marker.create_marker(Marker::Food(Vec2::new(50000, 0), 8), &mut queue);
    world.marker.create_marker(Marker::Food(Vec2::new(0, 0), 9), &mut queue);
    let senses = Ant::sense(&world, &pos, &zero);
    assert_eq!(senses.food, Some((1, food_at(31000, 0))));
    assert_eq!(senses.home_marker, Some(Marker::Home(Vec2::new(10000, 0), 6)));
    assert_eq!(senses.food_marker, Some(Marker::Food(Vec2::new(50000, 0), 8)));
    assert_eq!(
        Ant::find_beacon(&world.marker, &pos, &zero, MarkerKind::Food, &Vec2::new(-5, 0)),
        Some(Marker::Food(Vec2::new(0, 0), 9))
    );
    assert_eq!(Ant::sight(&world.food, &Vec2::new(59000, 0), &zero), Some((2, food_at(60000, 0))));
    assert_eq!(Ant::sight(&world.food, &Vec2::new(-200000, 0), &zero), None);
}

#[test]
fn an_ant_finds_food_and_brings_it_home() {
    let mut world = open_world();
    let mut queue: Vec<Gobj> = Vec::new();
    let at = Vec2::new(30000, 0);
    world.marker.create_marker(Marker::Home(Vec2::zero(), HOME_MARKER_LIFE), &mut queue);
    world.food.put_food(food_at(30000, 0));
    let mut ant = Ant::new(&at);
    assert_eq!(ant.state, AntState::Wander(0, 0, 0));

    ant.step(&mut world, &mut queue, 100, &chance());
    assert_eq!(ant.state, AntState::GetFood(at));
    assert_eq!(ant.pos, at);
    assert_eq!(ant.target_change_cooldown, 1050);
    assert!(world.food.get_food(1).is_some());

    ant.step(&mut world, &mut queue, 100, &chance());
    let home = Marker::Home(Vec2::zero(), HOME_MARKER_LIFE);
    assert_eq!(ant.state, AntState::GoHome(food_at(30000, 0), Some(home), 0, 0, 0));
    assert!(world.food.get_food(1).is_none());
    assert_eq!(world.hive.life, HIVE_START_LIFE);

    let mut ticks = 0;
    while matches!(ant.state, AntState::GoHome(..)) {
        assert!(ticks < 100);
        ant.step(&mut world, &mut queue, 100, &chance());
        ticks += 1;
    }
    assert_eq!(ant.state, AntState::Wander(0, 100, 0));
    // it came within the deposit range at 21000, and took one more step while it handed over
    assert_eq!(ticks, 16);
    assert_eq!(ant.pos, Vec2::new(19500, 0));
    assert_eq!(world.hive.life, HIVE_START_LIFE + 5 * 2000);
    assert!(!world.hive.player_gave);
}

#[test]
fn an_ant_on_food_goes_for_the_piece_it_sees() {
    let mut world = open_world();
    let mut queue: Vec<Gobj> = Vec::new();
    // the ant stands on the first piece and looks along the x axis: the
    // point one unit ahead is as near to the second piece, nearer than to the third
    world.food.put_food(food_at(0, 0));
    world.food.put_food(food_at(2000, 0));
    world.food.put_food(food_at(1000, -1001));
    let mut ant = ant_in(AntState::Wander(5000, 0, 0));
    ant.step(&mut world, &mut queue, 100, &chance());
    assert_eq!(ant.state, AntState::GetFood(Vec2::new(0, 0)));
    assert!(world.food.get_food(1).is_some());

    // a piece nearer to the point ahead is seen before the one underfoot
    let mut world = open_world();
    world.food.put_food(food_at(0, 0));
    world.food.put_food(food_at(1500, 0));
    let mut ant = ant_in(AntState::Wander(5000, 0, 0));
    ant.step(&mut world, &mut queue, 100, &chance());
    assert_eq!(ant.state, AntState::GetFood(Vec2::new(1500, 0)));
    assert_eq!(world.food.get_food(1), Some(&food_at(0, 0)));
    assert_eq!(world.food.get_food(2), Some(&food_at(1500, 0)));
}

#[test]
fn an_ant_leaves_a_marker_every_marker_spacing() {
    let mut world = open_world();
    let mut queue: Vec<Gobj> = Vec::new();
    let way = Marker::Home(Vec2::new(160000, 0), HOME_MARKER_LIFE);
    world.marker.create_marker(way, &mut queue);
    queue.clear();
    let mut ant = Ant {
        pos: Vec2::new(100000, 0),
        target: Vec2::new(300000, 0),
        target_change_cooldown: 1_000_000,
        last_marker_pos: Vec2::new(100000, 0),
        state: AntState::GoHome(food_at(1, 1), Some(way), 0, 0, 0),
    };
    let zero = Vec2::zero();
    // a step is a thousand and a half long: the eleventh is the first to end beyond the spacing
    for _ in 0..10 {
        ant.step(&mut world, &mut queue, 100, &chance());
    }
    assert_eq!(ant.pos, Vec2::new(115000, 0));
    assert!(queue.is_empty());
    ant.step(&mut world, &mut queue, 100, &chance());
    assert_eq!(ant.pos, Vec2::new(116500, 0));
    assert_eq!(ant.last_marker_pos, ant.pos);
    assert_eq!(queue.len(), 1);
    // the marker lies where the ant stood at the start of the tick
    assert_eq!(
        world.marker.local_markers(&ant.pos, &zero, Some(MarkerKind::Food)),
        vec![Marker::Food(Vec2::new(115000, 0), FOOD_MARKER_LIFE)]
    );
    assert_eq!(ant.state, AntState::GoHome(food_at(1, 1), Some(way), 0, 0, 0));
    assert_eq!(ant.target, Vec2::new(300000, 0));
    assert!(ANT_MARKER_DIST < 16500);
}

#[test]
fn an_ant_turns_back_where_it_cannot_go() {
    let mut world = open_world();
    let mut queue: Vec<Gobj> = Vec::new();
    let mut ant = Ant {
        pos: Vec2::new(749_900, 749_900),
        target: Vec2::new(759_900, 759_900),
        target_change_cooldown: 1_000_000,
        last_marker_pos: Vec2::new(749_900, 749_900),
        state: AntState::GetFood(Vec2::new(759_900, 759_900)),
    };
    ant.step(&mut world, &mut queue, 100, &chance());
    assert_eq!(ant.pos, Vec2::new(749_900, 749_900));
    // one unit back along the heading
    assert_eq!(ant.target, Vec2::new(749_193, 749_193));
    assert_eq!(ant.state, AntState::Wander(0, 100, 0));
}

#[test]
fn a_scout_keeps_within_bounds_and_lays_a_trail_home() {
    let mut world = open_world();
    let mut queue: Vec<Gobj> = Vec::new();
    let mut scout = Scout::new(&Vec2::new(800_000, -900_000));
    scout.step(&mut world, &mut queue, 100, &Chance { angle: 3142, ..chance() });
    // kept within bounds, a new target on the ring, one stride towards it
    assert_eq!(scout.target, Vec2::new(690_000, -750_000));
    assert_eq!(scout.pos, Vec2::new(748_500, -750_000));
    assert_eq!(scout.target_change_cooldown, 1000);
    assert_eq!(scout.last_marker_pos, scout.pos);
    assert_eq!(queue.len(), 1);
    assert_eq!(
        world.marker.local_markers(&scout.pos, &Vec2::zero(), Some(MarkerKind::Home)),
        vec![Marker::Home(scout.pos, HOME_MARKER_LIFE)]
    );
    scout.step(&mut world, &mut queue, 100, &chance());
    assert_eq!(scout.target, Vec2::new(690_000, -750_000));
    assert_eq!(scout.pos, Vec2::new(747_000, -750_000));
    assert_eq!(scout.target_change_cooldown, 900);
    assert_eq!(queue.len(), 1);
}

#[test]
fn the_player_walks_where_it_is_steered() {
    let mut world = open_world();
    let mut queue: Vec<Gobj> = Vec::new();
    let mut player = Player::new(&Vec2::zero());
    let east = Input { dir: Vec2::new(1000, 0), cycle_marker: false };
    player.step(&mut world, &mut queue, 100, &east);
    assert_eq!(player.pos, Vec2::new(4500, 0));
    let still = Input { dir: Vec2::zero(), cycle_marker: false };
    player.step(&mut world, &mut queue, 100, &still);
    assert_eq!(player.pos, Vec2::new(4500, 0));
    let diagonal = Input { dir: Vec2::new(-707, 707), cycle_marker: false };
    player.step(&mut world, &mut queue, 200, &diagonal);
    assert_eq!(player.pos, Vec2::new(4500 - 6363, 6363));
    assert!(queue.is_empty());
}

#[test]
fn the_player_drops_the_markers_it_chose() {
    let mut world = open_world();
    let mut queue: Vec<Gobj> = Vec::new();
    let mut player = Player::new(&Vec2::zero());
    let cycle = Input { dir: Vec2::zero(), cycle_marker: true };
    let east = Input { dir: Vec2::new(1000, 0), cycle_marker: false };
    player.step(&mut world, &mut queue, 100, &cycle);
    assert_eq!(player.marker_type, Some(Marker::Home(Vec2::zero(), 0)));
    for _ in 0..4 {
        player.step(&mut world, &mut queue, 100, &east);
    }
    // eighteen units from the last marker, found out at the start of the next tick
    assert_eq!(player.pos, Vec2::new(18000, 0));
    assert!(queue.is_empty());
    player.step(&mut world, &mut queue, 100, &cycle);
    assert_eq!(queue.len(), 1);
    assert_eq!(player.last_marker_pos, Vec2::new(18000, 0));
    assert_eq!(
        world.marker.local_markers(&player.pos, &Vec2::zero(), None),
        vec![Marker::Home(Vec2::new(18000, 0), HOME_MARKER_LIFE)]
    );
    assert_eq!(player.marker_type, Some(Marker::Food(Vec2::new(18000, 0), 0)));
    player.step(&mut world, &mut queue, 100, &cycle);
    assert_eq!(player.marker_type, None);
    for _ in 0..5 {
        player.step(&mut world, &mut queue, 100, &east);
    }
    assert_eq!(queue.len(), 1);
    assert_eq!(player.last_marker_pos, Vec2::new(36000, 0));
}

#[test]
fn the_player_picks_food_up_and_brings_it_home() {
    let mut world = open_world();
    let mut queue: Vec<Gobj> = Vec::new();
    world.hive.life = 100_000;
    world.food.put_food(Food::with(&Vec2::new(5000, 0), 3000, 0, 0));
    world.food.put_food(Food::with(&Vec2::new(9000, 0), 1000, 0, 0));
    let mut player = Player::new(&Vec2::zero());
    let east = Input { dir: Vec2::new(1000, 0), cycle_marker: false };
    let still = Input { dir: Vec2::zero(), cycle_marker: false };
    player.step(&mut world, &mut queue, 100, &east);
    assert_eq!(player.pos, Vec2::new(4500, 0));
    // picked up, and drawn two fifths beyond the point it is drawn to
    let carried = player.carried_food.unwrap();
    assert_eq!(carried.value, 3000);
    assert_eq!(carried.pos, Vec2::new(12000, 0));
    assert!(world.food.get_food(1).is_none());
    assert_eq!(world.hive.life, 100_000);
    // hands full: the other piece stays, and the hive gets the first
    player.step(&mut world, &mut queue, 100, &still);
    assert!(world.food.get_food(2).is_some());
    assert_eq!(player.carried_food, None);
    assert_eq!(world.hive.life, 115_000);
    assert!(world.hive.did_player_give());
    assert!(!world.hive.did_player_give());
}

#[test]
fn a_spark_moves_on() {
    let s = Spark { position: Vec2::new(0, 0), velocity: Vec2::new(1000, 0), life: 500 };
    let next = s.step(&ParticleStyle::Explosive(0, 100), &Vec2::new(7, 7), 100);
    assert_eq!(next, Spark { position: Vec2::new(100, 0), velocity: Vec2::new(990, 0), life: 400 });
    let s = Spark { position: Vec2::new(100, 0), velocity: Vec2::new(0, 0), life: 10 };
    let next = s.step(&ParticleStyle::Orbit(500, 30), &Vec2::new(0, 0), 100);
    assert_eq!(next, Spark { position: Vec2::new(100, 0), velocity: Vec2::new(-4, 0), life: -90 });
}

#[test]
fn a_spark_is_born() {
    let o = Vec2::new(100, 100);
    let place = Vec2::new(1100, 100);
    let swing = Vec2::new(5, 6);
    let s = Spark::new(&o, 3000, &ParticleStyle::Explosive(100_000, 70), place, swing, 800, 500);
    assert_eq!(s, Spark { position: place, velocity: swing, life: 1500 });
    let s = Spark::new(&o, 3000, &ParticleStyle::Orbit(4000, 30), place, swing, -500, 999);
    assert_eq!(s, Spark { position: place, velocity: Vec2::new(-2000, 0), life: 2997 });
}

#[test]
fn a_burst_lives_as_long_as_it_was_given() {
    let mut p = Particles::new(&Vec2::new(5, 5), 7, 3000, 1000, 0x00FF00FF, ParticleStyle::Explosive(100_000, 70));
    assert_eq!(p.positions.len(), 7);
    assert_eq!(p.velocities.len(), 7);
    assert_eq!(p.lives.len(), 7);
    assert_eq!((p.o_life, p.life, p.col, p.pos), (3000, 3000, 0x00FF00FF, Vec2::new(5, 5)));
    for i in 0..7 {
        assert!(1500 <= p.lives[i] && p.lives[i] < 3000);
        assert!(p.positions[i].within(p.pos, 1002));
        let speed = p.velocities[i].length();
        assert!(79_000 <= speed && speed <= 120_001);
    }
    let first = Spark { position: p.positions[0], velocity: p.velocities[0], life: p.lives[0] };
    assert!(p.update(1000));
    assert_eq!(p.life, 2000);
    let moved = first.step(&p.style, &p.pos, 1000);
    assert_eq!((p.positions[0], p.velocities[0], p.lives[0]), (moved.position, moved.velocity, moved.life));
    assert!(p.update(1999));
    assert!(!p.update(1));
    assert_eq!(p.life, 0);
    assert_eq!(p.o_life, 3000);
}

#[test]
fn one_new_ant_in_ten_is_a_scout() {
    let at = Vec2::new(3, 4);
    assert!(matches!(Gobj::ant_from(&at, 0), Gobj::Scout(_)));
    assert!(matches!(Gobj::ant_from(&at, 99), Gobj::Scout(_)));
    assert!(matches!(Gobj::ant_from(&at, 100), Gobj::Ant(_)));
    assert!(matches!(Gobj::ant_from(&at, 999), Gobj::Ant(_)));
    match Gobj::ant_from(&at, 500) {
        Gobj::Ant(a) => assert_eq!(a, Ant::new(&at)),
        _ => panic!("not an ant"),
    }
    match Gobj::ant_from(&at, 5) {
        Gobj::Scout(s) => assert_eq!(s, Scout::new(&at)),
        _ => panic!("not a scout"),
    }
    let mut scouts = 0;
    for _ in 0..2000 {
        match Gobj::new_ant(&at) {
            Gobj::Scout(_) => scouts += 1,
            Gobj::Ant(_) => {}
            _ => panic!("not an ant"),
        }
    }
    assert!(100 < scouts && scouts < 320);
    match Gobj::new_player(&at) {
        Gobj::Player(p) => assert_eq!(p, Player::new(&at)),
        _ => panic!("not the player"),
    }
    assert!(matches!(
        Gobj::new_particles(&at, 3, 10, 10, 1, ParticleStyle::Orbit(1, 1)),
        Gobj::Particles(_)
    ));
}

#[test]
fn chance_is_drawn_within_its_bounds() {
    for _ in 0..300 {
        let c = Chance::draw();
        assert!(0 <= c.angle && c.angle < 6284);
        assert!(1000 <= c.timer && c.timer < 3000);
        assert!(-3142 <= c.sway && c.sway < 3142);
        assert!(-6284 <= c.course && c.course < 6284);
        assert!(0 <= c.jitter && c.jitter < 100);
        assert!(45000 <= c.reach && c.reach < 150000);
    }
}

#[test]
fn objects_take_their_tick() {
    let mut world = open_world();
    let mut queue: Vec<Gobj> = Vec::new();
    let still = Input { dir: Vec2::new(0, 1000), cycle_marker: false };
    let mut player = Gobj::new_player(&Vec2::zero());
    assert!(player.advance(&mut world, &mut queue, 100, &still, &chance()));
    assert!(matches!(&player, Gobj::Player(p) if p.pos == Vec2::new(0, 4500)));
    assert!(player.update(&mut world, &mut queue, 100, &still));
    assert!(matches!(&player, Gobj::Player(p) if p.pos == Vec2::new(0, 9000)));
    let mut ant = Gobj::ant_from(&Vec2::new(10, 10), 500);
    assert!(ant.update(&mut world, &mut queue, 100, &still));
    assert!(matches!(ant, Gobj::Ant(_)));
    let mut scout = Gobj::ant_from(&Vec2::new(10, 10), 5);
    assert!(scout.update(&mut world, &mut queue, 100, &still));
    assert!(matches!(scout, Gobj::Scout(_)));
    let mut burst = Gobj::new_particles(&Vec2::zero(), 2, 150, 10, 1, ParticleStyle::Orbit(1, 1));
    assert!(burst.update(&mut world, &mut queue, 100, &still));
    assert!(!burst.update(&mut world, &mut queue, 100, &still));
}

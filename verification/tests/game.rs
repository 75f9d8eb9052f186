use hivesim::ants::{Ant, AntState};
use hivesim::food::Food;
use hivesim::game_objects::ObjectSet;
use hivesim::gameplay::{Frame, GameState, Gameplay, PREVIEW_LENGTH};
use hivesim::gobj::{Chance, Gobj, Input};
use hivesim::hive::{Hive, HIVE_START_LIFE};
use hivesim::markers::Marker;
use hivesim::particles::ParticleStyle;
use hivesim::player::Player;
use hivesim::signals::{Signal, SignalQueue};
use hivesim::vector::Vec2;
use hivesim::world::{Mask, World, MAP_SIZE};

fn open_mask() -> Mask {
    Mask { width: 64, height: 64, alpha: vec![0; 64 * 64] }
}

fn still(d: i32) -> Frame {
    Frame { d, input: Input { dir: Vec2::zero(), cycle_marker: false }, lose: false, restart: false }
}

fn game() -> Gameplay {
    let mut g = Gameplay::new(Hive::new());
    assert!(g.init(&open_mask()));
    g
}

fn chance() -> Chance {
    Chance { angle: 100, timer: 2000, sway: 0, course: 0, jitter: 50, reach: 60000 }
}

#[test]
fn objects_get_numbers_that_are_never_given_again() {
    let mut set: ObjectSet<u8> = ObjectSet::new();
    assert_eq!(set.create(10), 0);
    assert_eq!(set.create(11), 1);
    assert_eq!(set.create(12), 2);
    assert_eq!(*set.get_obj(1), 11);
    set.schedule_destroy(1);
    set.schedule_destroy(7);
    assert_eq!(*set.get_obj(1), 11);
    set.destroy_scheduled();
    assert_eq!(set.objects.get(&0), Some(&10));
    assert_eq!(set.objects.get(&1), None);
    assert_eq!(set.objects.get(&2), Some(&12));
    assert_eq!(set.objects.len(), 2);
    assert!(set.to_be_destroyed.is_empty());
    assert_eq!(set.next_id, 3);
    assert_eq!(set.create(13), 3);
    set.replace(0, 20);
    assert_eq!(*set.get_obj(0), 20);
    *set.get_obj_mut(2) += 1;
    assert_eq!(*set.get_obj(2), 13);
    set.take_in(14);
    assert_eq!(*set.get_obj(4), 14);
    assert_eq!(set.objects.len(), 4);
    assert_eq!(set.next_id, 5);
    // when the numbers have run out, nothing more is taken in
    set.next_id = usize::MAX;
    set.take_in(15);
    assert_eq!(set.objects.len(), 4);
    assert_eq!(set.next_id, usize::MAX);
}

#[test]
fn a_burst_leaves_the_set_when_its_life_is_over() {
    let mut world = World::new(Hive::new());
    world.init(&open_mask(), &Vec2::new(MAP_SIZE, MAP_SIZE));
    let mut queue: Vec<Gobj> = Vec::new();
    let mut set: ObjectSet<Gobj> = ObjectSet::new();
    set.create(Gobj::new_particles(&Vec2::zero(), 2, 150, 10, 1, ParticleStyle::Orbit(1, 1)));
    set.create(Gobj::new_player(&Vec2::zero()));
    set.create(Gobj::new_particles(&Vec2::zero(), 2, 250, 10, 1, ParticleStyle::Orbit(1, 1)));
    let input = Input { dir: Vec2::new(1000, 0), cycle_marker: false };
    set.advance(&mut world, &mut queue, 100, &input, &vec![chance(), chance(), chance()]);
    assert_eq!(set.objects.len(), 3);
    set.update(&mut world, &mut queue, 100, &input);
    assert!(set.objects.get(&0).is_none());
    assert!(matches!(set.objects.get(&1), Some(Gobj::Player(p)) if p.pos == Vec2::new(9000, 0)));
    assert!(matches!(set.objects.get(&2), Some(Gobj::Particles(p)) if p.life == 50));
    set.schedule_destroy(1);
    set.update(&mut world, &mut queue, 100, &input);
    assert!(set.objects.is_empty());
    assert_eq!(set.next_id, 3);
}

#[test]
fn a_game_begins_with_the_player_on_the_hive() {
    let g = game();
    assert_eq!(g.player_id, 0);
    assert_eq!(g.player_pos(), Vec2::zero());
    assert_eq!(g.state, GameState::On);
    assert_eq!(g.load_timer, 1000);
    assert_eq!(g.food_timer, 0);
    assert_eq!(g.world.hive.life, HIVE_START_LIFE);
    assert!(!g.world.is_collision(&Vec2::zero()));
}

#[test]
fn a_game_does_not_begin_on_a_blocked_hive() {
    let mut mask = open_mask();
    // the cell that holds the origin is the cell (8, 8): its centre is the pixel (34, 34)
    mask.alpha[34 * 64 + 34] = 255;
    let mut g = Gameplay::new(Hive::new());
    assert!(!g.init(&mask));
    assert!(g.objs.objects.is_empty());
}

#[test]
fn a_tick_is_clamped() {
    assert_eq!(Gameplay::clamp_tick(0), 1);
    assert_eq!(Gameplay::clamp_tick(-50), 1);
    assert_eq!(Gameplay::clamp_tick(1), 1);
    assert_eq!(Gameplay::clamp_tick(16), 16);
    assert_eq!(Gameplay::clamp_tick(200), 200);
    assert_eq!(Gameplay::clamp_tick(201), 200);
    let mut g = game();
    let mut q = SignalQueue::new();
    g.update(&mut q, &still(100_000));
    assert_eq!(g.world.hive.life, HIVE_START_LIFE - 200);
    g.update(&mut q, &still(-7));
    assert_eq!(g.world.hive.life, HIVE_START_LIFE - 201);
}

#[test]
fn the_first_part_of_a_tick() {
    let mut g = game();
    g.spawn_queue.push(Gobj::new_particles(&Vec2::zero(), 1, 50, 10, 1, ParticleStyle::Orbit(1, 1)));
    let mut q = SignalQueue::new();
    g.finish(&mut q, 100);
    assert_eq!(g.objs.objects.len(), 2);
    assert_eq!(g.objs.next_id, 2);
    // the hive's marker has been laid, its burst waits
    assert_eq!(g.spawn_queue.len(), 1);
    let east = Input { dir: Vec2::new(1000, 0), cycle_marker: false };
    g.begin(100, &east, false, &vec![chance(), chance()]);
    assert_eq!(g.world.hive.life, HIVE_START_LIFE - 100);
    assert_eq!(g.player_pos(), Vec2::new(4500, 0));
    assert!(g.objs.objects.get(&1).is_none());
    assert_eq!(g.state, GameState::On);
    assert_eq!(
        g.world.marker.local_markers(&Vec2::zero(), &Vec2::zero(), None),
        vec![Marker::Home(Vec2::zero(), 60000 - 100)]
    );
    g.begin(100, &east, true, &vec![chance(), chance()]);
    assert_eq!(g.state, GameState::Over);
    g.restart();
    assert_eq!(g.state, GameState::On);
    g.world.hive.life = 50;
    g.begin(50, &east, false, &vec![chance(), chance()]);
    assert_eq!(g.state, GameState::On);
    g.begin(1, &east, false, &vec![chance(), chance()]);
    assert_eq!(g.state, GameState::Over);
    g.lose();
    assert_eq!(g.state, GameState::Over);
}

#[test]
fn the_last_part_of_a_tick() {
    let mut g = game();
    let mut q = SignalQueue::new();
    g.load_timer = 150;
    g.finish(&mut q, 100);
    assert_eq!(g.load_timer, 50);
    assert!(q.signals.is_empty());
    assert_eq!(g.player_pos(), Vec2::zero());
    assert_eq!(
        g.world.marker.local_markers(&Vec2::zero(), &Vec2::zero(), None),
        vec![Marker::Home(Vec2::zero(), 60000)]
    );
    assert_eq!(g.spawn_queue.len(), 1);
    // the timer runs out: the player goes down, and is put on the doorstep
    g.finish(&mut q, 100);
    assert_eq!(g.load_timer, -50);
    assert_eq!(q.signals.iter().copied().collect::<Vec<Signal>>(), vec![Signal::SetScene(0)]);
    assert_eq!(g.player_pos(), Vec2::new(0, 22400));
    // the burst of the hive's marker has joined the objects; no second marker
    assert_eq!(g.objs.objects.len(), 2);
    assert!(g.spawn_queue.is_empty());
    assert_eq!(g.world.marker.local_markers(&Vec2::zero(), &Vec2::zero(), None).len(), 1);
    // off the hive nothing happens, and a timer that has run out stays
    g.finish(&mut q, 100);
    assert_eq!(g.load_timer, -50);
    assert_eq!(q.signals.len(), 1);
    assert_eq!(g.state, GameState::On);
    g.world.hive.deposit(true, 1000);
    g.finish(&mut q, 100);
    assert_eq!(g.state, GameState::Preview(PREVIEW_LENGTH));
    assert!(!g.world.hive.player_gave);
}

#[test]
fn the_preview_runs_out() {
    let mut g = game();
    let mut q = SignalQueue::new();
    g.state = GameState::Preview(250);
    g.update(&mut q, &still(100));
    assert_eq!(g.state, GameState::Preview(150));
    assert_eq!(g.world.hive.life, HIVE_START_LIFE);
    g.update(&mut q, &still(150));
    assert_eq!(g.state, GameState::Preview(0));
    g.update(&mut q, &still(1));
    assert_eq!(g.state, GameState::On);
}

#[test]
fn a_lost_game_waits_for_the_restart_key() {
    let mut g = game();
    let mut q = SignalQueue::new();
    g.update(&mut q, &Frame { lose: true, ..still(100) });
    assert_eq!(g.state, GameState::Over);
    let life = g.world.hive.life;
    g.update(&mut q, &still(100));
    assert_eq!(g.state, GameState::Over);
    assert_eq!(g.world.hive.life, life);
    g.update(&mut q, &Frame { restart: true, ..still(100) });
    assert_eq!(g.state, GameState::On);
}

#[test]
fn the_food_timer_runs_before_food_is_due() {
    let mut g = game();
    g.food_timer = 150;
    assert!(!g.food_due(100));
    assert_eq!(g.food_timer, 50);
    assert!(!g.food_due(100));
    assert_eq!(g.food_timer, -50);
    assert!(g.food_due(100));
    assert_eq!(g.food_timer, -50);
    g.world.hive.life = 450_000;
    assert!(!g.food_due(100));
    g.world.hive.life = 449_999;
    assert!(g.food_due(100));
}

#[test]
fn food_is_spawned_out_of_the_players_sight() {
    let mut g = game();
    g.stock(Food::with(&Vec2::new(1000, 0), 2000, 0, 0));
    assert_eq!(g.world.food.last_id(), 1);
    g.spawn_food();
    let n = g.world.food.last_id();
    assert!(1 + 15 <= n && n <= 1 + 72);
    assert_eq!(g.world.food.get_food(1), Some(&Food::with(&Vec2::new(1000, 0), 2000, 0, 0)));
    let player = g.player_pos();
    for id in 2..=n {
        let f = g.world.food.get_food(id).unwrap();
        assert!(1000 <= f.value && f.value < 5000);
        // a cluster lies round a site that is out of sight, at most six ant's radii off it
        assert!(f.pos.beyond(player, 160_000 - 19_300));
    }
    assert!(g.site_ok(&Vec2::new(200_000, 0), &player));
    assert!(!g.site_ok(&Vec2::new(160_000, 0), &player));
    assert!(g.site_ok(&Vec2::new(160_001, 0), &player));
    assert!(!g.site_ok(&Vec2::new(800_000, 0), &player));
}

#[test]
fn ants_are_spawned_round_a_point() {
    let mut g = game();
    let at = Vec2::new(50_000, 50_000);
    g.spawn_ants(&at, 20);
    assert_eq!(g.objs.objects.len(), 21);
    for id in 1..21 {
        let pos = match g.objs.get_obj(id) {
            Gobj::Ant(a) => a.pos,
            Gobj::Scout(s) => s.pos,
            _ => panic!("not an ant"),
        };
        assert!(pos.within(at, 9602));
        assert!(pos.beyond(at, 3190));
    }
    // none where it could not stand
    g.spawn_ants(&Vec2::new(900_000, 0), 5);
    assert_eq!(g.objs.objects.len(), 21);
}

#[test]
fn a_delivery_by_the_player_opens_the_preview() {
    let mut g = game();
    let mut q = SignalQueue::new();
    g.food_timer = 1_000_000;
    g.load_timer = 1_000_000;
    g.stock(Food::with(&Vec2::new(3000, 0), 3000, 0, 0));
    let east = Frame { input: Input { dir: Vec2::new(1000, 0), cycle_marker: false }, ..still(100) };
    g.update(&mut q, &east);
    assert!(matches!(g.objs.objects.get(&0), Some(Gobj::Player(p)) if p.carried_food.is_some()));
    assert_eq!(g.state, GameState::On);
    g.update(&mut q, &still(100));
    assert_eq!(g.world.hive.life, HIVE_START_LIFE - 200 + 15_000);
    assert_eq!(g.state, GameState::Preview(PREVIEW_LENGTH));
    assert!(matches!(g.objs.objects.get(&0), Some(Gobj::Player(p)) if p.carried_food.is_none()));
}

#[test]
fn an_ant_forages_in_a_running_game() {
    let mut g = game();
    let mut q = SignalQueue::new();
    g.food_timer = 1_000_000;
    let at = Vec2::new(30000, 0);
    g.stock(Food::with(&at, 2000, 0, 0));
    let id = g.objs.create(Gobj::Ant(Ant::new(&at)));
    let state = |g: &Gameplay| match g.objs.get_obj(id) {
        Gobj::Ant(a) => a.state,
        _ => panic!("not an ant"),
    };
    g.update(&mut q, &still(100));
    assert_eq!(state(&g), AntState::GetFood(at));
    assert!(g.world.food.get_food(1).is_some());
    g.update(&mut q, &still(100));
    assert!(matches!(state(&g), AntState::GoHome(f, Some(Marker::Home(..)), ..) if f.value == 2000));
    assert!(g.world.food.get_food(1).is_none());
    let mut ticks = 2;
    while matches!(state(&g), AntState::GoHome(..)) {
        assert!(ticks < 200);
        g.update(&mut q, &still(100));
        ticks += 1;
    }
    assert!(matches!(state(&g), AntState::Wander(..)));
    assert_eq!(g.world.hive.life, HIVE_START_LIFE - 100 * ticks + 10_000);
    assert!(g.world.hive.life > HIVE_START_LIFE);
    assert_eq!(g.state, GameState::On);
}

#[test]
fn the_colony_runs_in() {
    let mut g = game();
    g.presim(&still(100));
    assert!(g.objs.objects.len() > 100);
    let ants = g
        .objs
        .objects
        .values()
        .filter(|o| matches!(o, Gobj::Ant(_) | Gobj::Scout(_)))
        .count();
    assert_eq!(ants, 100);
    assert_eq!(g.world.hive.life, HIVE_START_LIFE - 200 * 100);
    // the player went down into the nest once, and has stood on the doorstep since
    let doorstep = Vec2::new(0, 22400);
    assert!(matches!(g.objs.objects.get(&0), Some(Gobj::Player(p)) if *p == Player::new(&doorstep)));
    assert!(g.world.food.last_id() > 0);
    for o in g.objs.objects.values() {
        if let Gobj::Ant(a) = o {
            assert!(!g.world.is_collision(&a.pos));
        }
    }
}

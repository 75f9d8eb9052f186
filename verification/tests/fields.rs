use hivesim::food::{Food, FoodWorld};
use hivesim::gobj::{Gobj, FOOD_MARKER_LIFE, HOME_MARKER_LIFE};
use hivesim::grid::Grid;
use hivesim::markers::{Marker, MarkerKind, MarkerWorld, MAX_HOME_MARKERS_PER_CELL};
use hivesim::resources::{COL_MARKER_FOOD, COL_MARKER_HOME};
use hivesim::vector::Vec2;

fn sample_food(x: i32, y: i32) -> Food {
    Food::with(&Vec2::new(x, y), 3000, 0, 1)
}

#[test]
fn grid_key_is_the_floor_of_the_quotient() {
    let g: Grid<u8> = Grid::new(55000);
    assert_eq!(g.size(), 55000);
    assert_eq!(g.key(&Vec2::new(0, 0)), (0, 0));
    assert_eq!(g.key(&Vec2::new(54999, 55000)), (0, 1));
    assert_eq!(g.key(&Vec2::new(-1, -55000)), (-1, -1));
    assert_eq!(g.key(&Vec2::new(-55001, 110000)), (-2, 2));
    assert_eq!(g.key(&Vec2::new(i32::MIN, i32::MAX)), (-39046, 39045));
    let unit: Grid<u8> = Grid::new(1);
    assert_eq!(unit.key(&Vec2::new(i32::MIN, i32::MAX)), (i32::MIN, i32::MAX));
}

#[test]
fn grid_buckets_grow_and_go() {
    let mut g: Grid<u8> = Grid::new(10);
    assert!(g.cell((0, 0)).is_none());
    g.push((0, 0), 1);
    g.push((0, 0), 2);
    g.push((-3, 7), 3);
    assert_eq!(g.cell((0, 0)), Some(&vec![1, 2]));
    assert_eq!(g.cell((-3, 7)), Some(&vec![3]));
    let mut cells = g.cell_list();
    cells.sort();
    assert_eq!(cells, vec![(-3, 7), (0, 0)]);
    g.put((0, 0), vec![9]);
    assert_eq!(g.cell((0, 0)), Some(&vec![9]));
    g.remove((0, 0));
    assert!(g.cell((0, 0)).is_none());
    assert_eq!(g.cell_list(), vec![(-3, 7)]);
}

#[test]
fn grid_local_reads_the_block_of_nine_cells() {
    let mut g: Grid<u8> = Grid::new(10);
    let mut n: u8 = 0;
    for x in -2..=2 {
        for y in -2..=2 {
            g.push((x, y), n);
            n += 1;
        }
    }
    // the cells of the block round (0, 0), column by column
    assert_eq!(g.local((0, 0)), vec![6, 7, 8, 11, 12, 13, 16, 17, 18]);
    assert_eq!(g.local((2, 2)), vec![18, 19, 23, 24]);
    assert_eq!(g.local((4, 0)), Vec::<u8>::new());
    assert_eq!(g.local((3, 3)), vec![24]);
    let edge: Grid<u8> = Grid::new(1);
    assert_eq!(edge.local((i32::MAX, i32::MIN)), Vec::<u8>::new());
}

#[test]
fn an_entry_is_found_from_the_nine_cells_round_it_only() {
    let mut w = MarkerWorld::new(55000);
    let mut queue: Vec<Gobj> = Vec::new();
    let m = Marker::Food(Vec2::new(60000, -10000), FOOD_MARKER_LIFE);
    w.create_marker(m, &mut queue);
    assert_eq!(w.pos_to_key(m.pos()), (1, -1));
    let zero = Vec2::zero();
    for kx in -1..=3 {
        for ky in -3..=1 {
            let centre = Vec2::new(kx * 55000 + 100, ky * 55000 + 100);
            let seen = w.local_markers(&centre, &zero, None);
            let near = (kx - 1i32).abs() <= 1 && (ky + 1i32).abs() <= 1;
            assert_eq!(seen.contains(&m), near);
        }
    }
}

#[test]
fn local_markers_looks_ahead_and_filters_by_kind() {
    let mut w = MarkerWorld::new(55000);
    let mut queue: Vec<Gobj> = Vec::new();
    let home = Marker::Home(Vec2::new(1000, 1000), HOME_MARKER_LIFE);
    let food = Marker::Food(Vec2::new(2000, 2000), FOOD_MARKER_LIFE);
    w.create_marker(home, &mut queue);
    w.create_marker(food, &mut queue);
    let pos = Vec2::new(-120000, 0);
    let zero = Vec2::zero();
    assert!(w.local_markers(&pos, &zero, None).is_empty());
    let ahead = Vec2::new(70000, 0);
    assert_eq!(w.local_markers(&pos, &ahead, None), vec![home, food]);
    assert_eq!(w.local_markers(&pos, &ahead, Some(MarkerKind::Home)), vec![home]);
    assert_eq!(w.local_markers(&pos, &ahead, Some(MarkerKind::Food)), vec![food]);
}

#[test]
fn a_created_marker_is_announced_by_a_burst() {
    let mut w = MarkerWorld::new(55000);
    let mut queue: Vec<Gobj> = Vec::new();
    w.create_marker(Marker::Home(Vec2::new(5, 6), HOME_MARKER_LIFE), &mut queue);
    w.create_marker(Marker::Food(Vec2::new(7, 8), FOOD_MARKER_LIFE), &mut queue);
    assert_eq!(queue.len(), 2);
    match &queue[0] {
        Gobj::Particles(p) => {
            assert_eq!(p.pos, Vec2::new(5, 6));
            assert_eq!(p.col, COL_MARKER_HOME);
            assert_eq!(p.o_life, HOME_MARKER_LIFE);
            assert_eq!(p.life, HOME_MARKER_LIFE);
            assert_eq!(p.lives.len(), 2);
            assert_eq!(p.positions.len(), 2);
            assert_eq!(p.velocities.len(), 2);
            for l in &p.lives {
                assert!(HOME_MARKER_LIFE / 2 <= *l && *l <= HOME_MARKER_LIFE);
            }
        }
        _ => panic!("not a burst"),
    }
    match &queue[1] {
        Gobj::Particles(p) => {
            assert_eq!(p.pos, Vec2::new(7, 8));
            assert_eq!(p.col, COL_MARKER_FOOD);
            assert_eq!(p.o_life, FOOD_MARKER_LIFE);
            assert_eq!(p.lives.len(), 3);
        }
        _ => panic!("not a burst"),
    }
}

#[test]
fn a_full_cell_takes_no_further_home_marker() {
    let mut w = MarkerWorld::new(55000);
    let mut queue: Vec<Gobj> = Vec::new();
    let zero = Vec2::zero();
    let at = Vec2::new(100, 100);
    for i in 0..(MAX_HOME_MARKERS_PER_CELL as i32 + 1) {
        w.create_marker(Marker::Home(Vec2::new(100 + i, 100), HOME_MARKER_LIFE), &mut queue);
    }
    let before = w.local_markers(&at, &zero, Some(MarkerKind::Home));
    assert_eq!(before.len(), MAX_HOME_MARKERS_PER_CELL + 1);
    assert_eq!(queue.len(), MAX_HOME_MARKERS_PER_CELL + 1);
    w.create_marker(Marker::Home(Vec2::new(500, 500), HOME_MARKER_LIFE), &mut queue);
    let after = w.local_markers(&at, &zero, Some(MarkerKind::Home));
    assert_eq!(after, before);
    assert_eq!(queue.len(), MAX_HOME_MARKERS_PER_CELL + 1);
    // the cap is per cell and for Home markers only
    w.create_marker(Marker::Food(Vec2::new(500, 500), FOOD_MARKER_LIFE), &mut queue);
    w.create_marker(Marker::Home(Vec2::new(60000, 500), HOME_MARKER_LIFE), &mut queue);
    assert_eq!(w.local_markers(&at, &zero, Some(MarkerKind::Food)).len(), 1);
    assert_eq!(w.local_markers(&at, &zero, Some(MarkerKind::Home)).len(), MAX_HOME_MARKERS_PER_CELL + 2);
    assert_eq!(queue.len(), MAX_HOME_MARKERS_PER_CELL + 3);
}

#[test]
fn markers_fade_by_the_time_that_passes() {
    let mut w = MarkerWorld::new(55000);
    let mut queue: Vec<Gobj> = Vec::new();
    let at = Vec2::new(10, 10);
    let zero = Vec2::zero();
    w.create_marker(Marker::Home(at, 60000), &mut queue);
    w.create_marker(Marker::Food(at, 50), &mut queue);
    w.create_marker(Marker::Food(at, 51), &mut queue);
    w.update(50);
    assert_eq!(
        w.local_markers(&at, &zero, None),
        vec![Marker::Home(at, 59950), Marker::Food(at, 1)]
    );
    w.update(1);
    assert_eq!(w.local_markers(&at, &zero, None), vec![Marker::Home(at, 59949)]);
    w.update(59949);
    assert!(w.local_markers(&at, &zero, None).is_empty());
}

#[test]
fn marker_accessors() {
    let m = Marker::Home(Vec2::new(1, 2), 30);
    assert_eq!(*m.pos(), Vec2::new(1, 2));
    assert_eq!(m.life(), 30);
    assert_eq!(m.kind(), MarkerKind::Home);
    assert!(m.matches(None));
    assert!(m.matches(Some(MarkerKind::Home)));
    assert!(!m.matches(Some(MarkerKind::Food)));
    assert_eq!(m.older(10), Marker::Home(Vec2::new(1, 2), 20));
    let f = Marker::Food(Vec2::new(3, 4), i32::MIN);
    assert_eq!(f.kind(), MarkerKind::Food);
    assert_eq!(f.older(10), Marker::Food(Vec2::new(3, 4), i32::MIN));
}

#[test]
fn food_is_as_wide_as_its_value_times_the_players_radius() {
    let f = Food::with(&Vec2::new(1, 2), 2500, 77, 3);
    assert_eq!(f.pos, Vec2::new(1, 2));
    assert_eq!(f.value, 2500);
    assert_eq!(f.size, 10000);
    assert_eq!(f.angle, 77);
    assert_eq!(f.index, 3);
}

#[test]
fn new_food_is_worth_one_to_five() {
    for _ in 0..100 {
        let f = Food::new(&Vec2::new(9, 9));
        assert_eq!(f.pos, Vec2::new(9, 9));
        assert!(1000 <= f.value && f.value < 5000);
        assert_eq!(f.size, f.value * 4);
        assert!(0 <= f.angle && f.angle < 6284);
        assert!(f.index < 4);
    }
}

#[test]
fn food_gets_the_next_number() {
    let mut w = FoodWorld::new(42000);
    assert_eq!(w.last_id(), 0);
    w.put_food(sample_food(0, 0));
    assert_eq!(w.last_id(), 1);
    w.put_food(sample_food(100000, 0));
    assert_eq!(w.last_id(), 2);
    assert_eq!(w.get_food(1), Some(&sample_food(0, 0)));
    assert_eq!(w.get_food(2), Some(&sample_food(100000, 0)));
    assert_eq!(w.get_food(0), None);
    assert_eq!(w.get_food(3), None);
    assert_eq!(w.pos_to_key(&Vec2::new(100000, -1)), (2, -1));
}

#[test]
fn find_food_returns_the_nearest_ahead() {
    let mut w = FoodWorld::new(42000);
    let zero = Vec2::zero();
    assert_eq!(w.find_food(&zero, &zero), None);
    w.put_food(sample_food(30000, 0));
    w.put_food(sample_food(10000, 0));
    w.put_food(sample_food(-10000, 0));
    w.put_food(sample_food(200000, 0));
    // two pieces are as near: the one with the smaller number is found
    assert_eq!(w.find_food(&zero, &zero), Some(2));
    assert_eq!(w.find_food(&Vec2::new(1, 0), &zero), Some(2));
    assert_eq!(w.find_food(&Vec2::new(25000, 0), &zero), Some(1));
    assert_eq!(w.find_food(&zero, &Vec2::new(25000, 0)), Some(1));
    assert_eq!(w.find_food(&Vec2::new(190000, 0), &zero), Some(4));
    assert_eq!(w.find_food(&Vec2::new(110000, 0), &zero), None);
}

#[test]
fn food_can_be_taken_once() {
    let mut w = FoodWorld::new(42000);
    w.put_food(sample_food(5, 5));
    w.put_food(sample_food(6, 6));
    assert_eq!(w.take_food(1), Some(sample_food(5, 5)));
    assert_eq!(w.take_food(1), None);
    assert_eq!(w.get_food(1), None);
    assert_eq!(w.get_food(2), Some(&sample_food(6, 6)));
    assert_eq!(w.find_food(&Vec2::zero(), &Vec2::zero()), Some(2));
    assert_eq!(w.take_food(7), None);
    assert_eq!(w.take_food(2), Some(sample_food(6, 6)));
    assert_eq!(w.find_food(&Vec2::zero(), &Vec2::zero()), None);
    w.update(100);
    assert_eq!(w.find_food(&Vec2::zero(), &Vec2::zero()), None);
    w.put_food(sample_food(5, 5));
    assert_eq!(w.last_id(), 3);
    assert_eq!(w.find_food(&Vec2::zero(), &Vec2::zero()), Some(3));
}

#[test]
fn food_update_keeps_what_is_there() {
    let mut w = FoodWorld::new(42000);
    w.put_food(sample_food(5, 5));
    w.put_food(sample_food(50000, 5));
    w.take_food(2);
    w.update(200);
    assert_eq!(w.get_food(1), Some(&sample_food(5, 5)));
    assert_eq!(w.get_food(2), None);
    assert_eq!(w.last_id(), 2);
}

#[test]
fn of_pieces_as_near_the_smallest_number_is_found() {
    let mut w = FoodWorld::new(42000);
    for _ in 0..40 {
        w.put_food(sample_food(7000, 7000));
    }
    w.put_food(sample_food(7000, 7001));
    let at = Vec2::new(7000, 7000);
    let zero = Vec2::zero();
    for id in 1..=40 {
        assert_eq!(w.find_food(&at, &zero), Some(id));
        assert_eq!(w.take_food(id), Some(sample_food(7000, 7000)));
        assert_eq!(w.get_food(id), None);
    }
    assert_eq!(w.find_food(&at, &zero), Some(41));
    assert_eq!(w.get_food(41), Some(&sample_food(7000, 7001)));
    assert_eq!(w.take_food(41), Some(sample_food(7000, 7001)));
    assert_eq!(w.find_food(&at, &zero), None);
}

#[test]
fn food_is_found_across_the_edges_of_cells() {
    let mut w = FoodWorld::new(42000);
    w.put_food(sample_food(-1, -1));
    w.put_food(sample_food(83999, 83999));
    w.put_food(sample_food(84000, 0));
    assert_eq!(w.pos_to_key(&Vec2::new(-1, -1)), (-1, -1));
    assert_eq!(w.pos_to_key(&Vec2::new(83999, 83999)), (1, 1));
    // from the middle cell all of the block is in sight, and nothing beyond
    assert_eq!(w.find_food(&Vec2::new(100, 100), &Vec2::zero()), Some(1));
    assert_eq!(w.find_food(&Vec2::new(41999, 41999), &Vec2::zero()), Some(1));
    assert_eq!(w.take_food(1), Some(sample_food(-1, -1)));
    assert_eq!(w.find_food(&Vec2::new(100, 100), &Vec2::zero()), Some(2));
    assert_eq!(w.take_food(2), Some(sample_food(83999, 83999)));
    assert_eq!(w.find_food(&Vec2::new(100, 100), &Vec2::zero()), None);
    assert_eq!(w.find_food(&Vec2::new(42000, 100), &Vec2::zero()), Some(3));
}

use hivesim::gobj::Gobj;
use hivesim::hive::{Hive, HIVE_MAX_LIFE, HIVE_START_LIFE};
use hivesim::signals::{Signal, SignalQueue};
use hivesim::vector::Vec2;
use hivesim::world::{CollisionField, Mask, World, MAP_SIZE, MAP_TOPLEFT};

fn open_mask(width: usize, height: usize) -> Mask {
    Mask { width, height, alpha: vec![0; width * height] }
}

fn open_world() -> World {
    let mut w = World::new(Hive::new());
    w.init(&open_mask(64, 64), &Vec2::new(MAP_SIZE, MAP_SIZE));
    w
}

#[test]
fn hive_delivery() {
    let mut hive = Hive::new();
    hive.life = 100_000;
    hive.deposit(true, 3000);
    assert_eq!(hive.life, 115_000);
    assert!(hive.did_player_give());
    assert!(!hive.did_player_give());
    assert!(!hive.did_player_give());
    hive.deposit(false, 1000);
    assert_eq!(hive.life, 120_000);
    assert!(!hive.did_player_give());
    hive.deposit(true, 1000);
    assert!(hive.did_player_give());
    assert!(!hive.did_player_give());
}

#[test]
fn hive_starts_half_full_and_fills_to_the_brim() {
    let mut hive = Hive::new();
    assert_eq!(hive.life, HIVE_START_LIFE);
    assert_eq!(hive.state_as_float(), 500);
    hive.deposit(false, 49_000);
    assert_eq!(hive.life, 495_000);
    hive.deposit(false, 1001);
    assert_eq!(hive.life, HIVE_MAX_LIFE);
    hive.deposit(false, i32::MAX);
    assert_eq!(hive.life, HIVE_MAX_LIFE);
    assert_eq!(hive.state_as_float(), 1000);
}

#[test]
fn hive_starves_and_is_lost_below_zero() {
    let mut hive = Hive::new();
    hive.update(200);
    assert_eq!(hive.life, HIVE_START_LIFE - 200);
    assert!(!hive.lost());
    hive.update(HIVE_START_LIFE - 200);
    assert_eq!(hive.life, 0);
    assert!(!hive.lost());
    hive.update(1);
    assert_eq!(hive.life, -1);
    assert!(hive.lost());
    assert_eq!(hive.state_as_float(), -1);
    hive.update(i32::MAX);
    hive.update(i32::MAX);
    assert_eq!(hive.life, i32::MIN);
}

#[test]
fn hive_picture_by_its_state() {
    let mut hive = Hive::new();
    assert_eq!(hive.state_as_tex(5), 2);
    hive.life = HIVE_MAX_LIFE;
    assert_eq!(hive.state_as_tex(5), 4);
    hive.life = 0;
    assert_eq!(hive.state_as_tex(5), 0);
    hive.life = 99_999;
    assert_eq!(hive.state_as_tex(5), 0);
    hive.life = 100_000;
    assert_eq!(hive.state_as_tex(5), 1);
    hive.life = -40;
    assert_eq!(hive.state_as_tex(5), 0);
    hive.life = 300_000;
    assert_eq!(hive.state_as_tex(1), 0);
}

#[test]
fn signals_are_sent_to_the_front() {
    let mut q = SignalQueue::new();
    assert!(q.signals.is_empty());
    q.send(Signal::SetScene(1));
    q.send(Signal::SetScene(2));
    let mut other = SignalQueue::new();
    other.send(Signal::SetScene(3));
    other.send(Signal::SetScene(4));
    q.append(other);
    let got: Vec<Signal> = q.signals.iter().copied().collect();
    assert_eq!(
        got,
        vec![Signal::SetScene(2), Signal::SetScene(1), Signal::SetScene(4), Signal::SetScene(3)]
    );
    assert_eq!(q.signals.pop_back(), Some(Signal::SetScene(3)));
}

#[test]
fn a_world_without_cells_is_blocked_everywhere() {
    let w = World::new(Hive::new());
    assert_eq!(w.map_tl, Vec2::new(MAP_TOPLEFT, MAP_TOPLEFT));
    assert!(w.is_collision(&Vec2::new(0, 0)));
    assert!(w.is_collision(&Vec2::new(-750_000, 750_000)));
    let f = CollisionField::empty();
    assert!(f.blocked(0, 0));
    assert!(f.blocked(-5, 5000));
}

#[test]
fn outside_the_map_is_blocked() {
    let w = open_world();
    assert!(!w.is_collision(&Vec2::new(0, 0)));
    assert!(!w.is_collision(&Vec2::new(-750_000, -750_000)));
    assert!(!w.is_collision(&Vec2::new(749_999, 749_999)));
    assert!(w.is_collision(&Vec2::new(750_000, 0)));
    assert!(w.is_collision(&Vec2::new(0, 750_000)));
    assert!(w.is_collision(&Vec2::new(-750_001, 0)));
    assert!(w.is_collision(&Vec2::new(0, -750_001)));
    assert!(w.is_collision(&Vec2::new(i32::MAX, i32::MAX)));
    assert!(w.is_collision(&Vec2::new(i32::MIN, i32::MIN)));
}

#[test]
fn a_cell_is_blocked_by_the_pixel_at_its_centre() {
    // an image of 8 by 8 pixels makes 2 by 2 cells over a map of 1000 by 1000
    let mut mask = open_mask(8, 8);
    // the centre of cell (1, 0) is the pixel in column 6 of row 2
    mask.alpha[2 * 8 + 6] = 74;
    // next to a centre: no effect
    mask.alpha[2 * 8 + 1] = 255;
    // under the threshold: no effect
    mask.alpha[6 * 8 + 2] = 73;
    assert!(mask.blocks(6, 2));
    assert!(!mask.blocks(2, 6));
    assert!(!mask.blocks(0, 0));
    assert!(mask.blocks(8, 0));
    assert!(mask.blocks(0, 8));
    let f = CollisionField::build(&mask, &Vec2::new(1000, 1000));
    assert!(!f.blocked(0, 0));
    assert!(!f.blocked(499, 499));
    assert!(f.blocked(500, 0));
    assert!(f.blocked(999, 499));
    assert!(!f.blocked(0, 500));
    assert!(!f.blocked(999, 999));
    assert!(f.blocked(1000, 0));
    assert!(f.blocked(-1, 0));
    let mut w = World::new(Hive::new());
    w.map_tl = Vec2::new(-500, -500);
    w.init(&mask, &Vec2::new(1000, 1000));
    assert!(w.is_collision(&Vec2::new(0, -500)));
    assert!(w.is_collision(&Vec2::new(499, -1)));
    assert!(!w.is_collision(&Vec2::new(-1, -1)));
    assert!(!w.is_collision(&Vec2::new(0, 0)));
    assert!(w.is_collision(&Vec2::new(500, 0)));
}

#[test]
fn a_cell_is_four_pixels_of_the_image_wide() {
    // six pixels are one whole square and a strip of two: over a map of 6000
    // the one cell is 4000 wide, and the last 2000 have no cell
    let f = CollisionField::build(&open_mask(6, 6), &Vec2::new(6000, 6000));
    assert!(!f.blocked(0, 0));
    assert!(!f.blocked(3999, 3999));
    assert!(f.blocked(4000, 0));
    assert!(f.blocked(0, 4000));
    assert!(f.blocked(5000, 5000));
    assert!(f.blocked(5999, 0));
    // ten by seven pixels over a map of 1000 by 700: cells of 400 by 400,
    // two columns of them and one row
    let mut mask = open_mask(10, 7);
    // the centre of cell (1, 0) is the pixel in column 6 of row 2
    mask.alpha[2 * 10 + 6] = 255;
    let f = CollisionField::build(&mask, &Vec2::new(1000, 700));
    assert!(!f.blocked(0, 0));
    assert!(!f.blocked(399, 399));
    assert!(f.blocked(400, 0));
    assert!(f.blocked(799, 399));
    assert!(f.blocked(800, 0));
    assert!(f.blocked(0, 400));
    assert!(f.blocked(999, 699));
    let mut w = World::new(Hive::new());
    w.map_tl = Vec2::new(-3000, -3000);
    w.init(&open_mask(6, 6), &Vec2::new(6000, 6000));
    assert!(!w.is_collision(&Vec2::new(-3000, -3000)));
    assert!(!w.is_collision(&Vec2::new(999, 999)));
    assert!(w.is_collision(&Vec2::new(1000, 0)));
    assert!(w.is_collision(&Vec2::new(2000, 2000)));
}

#[test]
fn a_short_image_blocks_what_it_does_not_show() {
    let mask = Mask { width: 8, height: 8, alpha: vec![0; 40] };
    assert!(!mask.blocks(6, 2));
    assert!(mask.blocks(2, 6));
    let f = CollisionField::build(&mask, &Vec2::new(1000, 1000));
    assert!(!f.blocked(0, 0));
    assert!(f.blocked(0, 500));
    let flat = CollisionField::build(&open_mask(8, 8), &Vec2::new(0, 1000));
    assert!(flat.blocked(0, 0));
}

#[test]
fn agents_slide_along_walls() {
    // 4 by 4 cells of 250 over a map whose corner lies at the origin
    let mut mask = open_mask(16, 16);
    // block the cell (2, 1): its centre is the pixel in column 10 of row 6
    mask.alpha[6 * 16 + 10] = 255;
    let mut w = World::new(Hive::new());
    w.map_tl = Vec2::new(0, 0);
    w.init(&mask, &Vec2::new(1000, 1000));
    assert!(w.is_collision(&Vec2::new(500, 250)));
    assert!(w.is_collision(&Vec2::new(749, 499)));
    assert!(!w.is_collision(&Vec2::new(499, 499)));

    // free way
    let mut pos = Vec2::new(100, 100);
    assert!(Gobj::translate_collidable(&mut pos, Vec2::new(50, -20), &w));
    assert_eq!(pos, Vec2::new(150, 80));

    // into the wall from the left: only the part along y is free
    let mut pos = Vec2::new(490, 300);
    assert!(Gobj::translate_collidable(&mut pos, Vec2::new(20, 5), &w));
    assert_eq!(pos, Vec2::new(490, 305));

    // into the wall from above: only the part along x is free
    let mut pos = Vec2::new(600, 240);
    assert!(Gobj::translate_collidable(&mut pos, Vec2::new(5, 20), &w));
    assert_eq!(pos, Vec2::new(605, 240));

    // into the corner: both parts are free, the longer one wins
    let mut pos = Vec2::new(495, 245);
    assert!(Gobj::translate_collidable(&mut pos, Vec2::new(10, 8), &w));
    assert_eq!(pos, Vec2::new(505, 245));
    let mut pos = Vec2::new(495, 245);
    assert!(Gobj::translate_collidable(&mut pos, Vec2::new(8, 10), &w));
    assert_eq!(pos, Vec2::new(495, 255));
    let mut pos = Vec2::new(495, 245);
    assert!(Gobj::translate_collidable(&mut pos, Vec2::new(10, 10), &w));
    assert_eq!(pos, Vec2::new(495, 255));

    // out of the map in both directions: nothing is free
    let mut pos = Vec2::new(5, 5);
    assert!(!Gobj::translate_collidable(&mut pos, Vec2::new(-10, -10), &w));
    assert_eq!(pos, Vec2::new(5, 5));

    // straight into the wall: the part along the other axis is no step at all
    let mut pos = Vec2::new(490, 300);
    assert!(Gobj::translate_collidable(&mut pos, Vec2::new(20, 0), &w));
    assert_eq!(pos, Vec2::new(490, 300));
}

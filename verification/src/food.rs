//! The food field: pieces of food that lie where they were put until an
//! agent takes them.

use vstd::prelude::*;
use crate::gobj::PLAYER_RAD;
use vstd::std_specs::iter::IteratorSpec;
use std::collections::HashMap;
use crate::grid::{adjacent, as_cell, cell_key, cell_of, neighbour, Cells};
use crate::maths::{gen_range, random_angle, TAU};
use crate::vector::{portion, sat, Vec2, UNIT};

verus! {

/// The number of pictures a piece of food is drawn with.
pub const FOOD_VARIANTS: usize = 4;

/// A piece of food.
#[derive(Debug, PartialEq, Eq, Clone, Copy)]
pub struct Food {
    pub pos: Vec2,
    /// The width it is drawn with.
    pub size: i32,
    /// What it is worth to the hive.
    pub value: i32,
    /// The angle it is drawn at.
    pub angle: i32,
    /// Which picture it is drawn with.
    pub index: usize,
}

impl Food {
    /// A piece of food worth `value` at `pos`: as wide as the player's
    /// radius times its value.
    pub open spec fn of(pos: Vec2, value: int, angle: int, index: int) -> Food {
        Food {
            pos,
            size: sat((value * PLAYER_RAD) / (UNIT as int)) as i32,
            value: value as i32,
            angle: angle as i32,
            index: index as usize,
        }
    }

    /// A piece of food worth `value` at `pos`.
    pub fn with(pos: &Vec2, value: i32, angle: i32, index: usize) -> (f: Food)
        ensures
            f == Food::of(*pos, value as int, angle as int, index as int),
    {
        Food { pos: *pos, size: portion(value, PLAYER_RAD, UNIT), value, angle, index }
    }

    /// A piece of food at `pos` whose value, angle and picture are left to
    /// chance: a value from one unit up to five, any angle, any picture.
    pub fn new(pos: &Vec2) -> (f: Food)
        ensures
            exists|value: int, angle: int, index: int|
                UNIT <= value < 5 * UNIT && 0 <= angle < TAU && 0 <= index < FOOD_VARIANTS && f
                    == #[trigger] Food::of(*pos, value, angle, index),
    {
        let value: i32 = gen_range(UNIT, 5 * UNIT);
        let angle: i32 = random_angle();
        let index: i32 = gen_range(0, 4);
        Food::with(pos, value, angle, index as usize)
    }
}

/// The number a piece of food is known by.
pub type FoodID = usize;

/// The buckets of a food field by their cells: in each the pieces of food
/// by their numbers.
pub type FoodCells = Map<(int, int), Map<FoodID, Food>>;

/// The pieces of cell `c`, none where it has no bucket.
pub open spec fn pieces_of(cells: FoodCells, c: (int, int)) -> Map<FoodID, Food> {
    if cells.contains_key(c) {
        cells[c]
    } else {
        Map::empty()
    }
}

/// Whether `cells` holds a piece of food under the number `id`.
pub open spec fn holds_id(cells: FoodCells, id: FoodID) -> bool {
    exists|c: (int, int)| cells.contains_key(c) && #[trigger] cells[c].contains_key(id)
}

/// The piece of food that `cells` holds under the number `id`.
pub open spec fn item_of(cells: FoodCells, id: FoodID) -> Food {
    cells[choose|c: (int, int)| cells.contains_key(c) && #[trigger] cells[c].contains_key(id)][id]
}

/// `cells` with the piece of food under the number `id` taken out: the same
/// buckets, none of them with a piece under that number.
pub open spec fn without(cells: FoodCells, id: FoodID) -> FoodCells {
    Map::new(|c: (int, int)| cells.contains_key(c), |c: (int, int)| cells[c].remove(id))
}

/// `cells` without its empty buckets.
pub open spec fn pruned(cells: FoodCells) -> FoodCells {
    Map::new(
        |c: (int, int)| cells.contains_key(c) && !cells[c].is_empty(),
        |c: (int, int)| cells[c],
    )
}

/// No two buckets of `cells` hold a piece under the same number.
pub open spec fn distinct_ids(cells: FoodCells) -> bool {
    forall|c1: (int, int), c2: (int, int), id: FoodID|
        cells.contains_key(c1) && #[trigger] cells[c1].contains_key(id) && cells.contains_key(c2)
            && #[trigger] cells[c2].contains_key(id) ==> c1 == c2
}

/// A field is well formed when its cells have a positive width, every piece
/// lies in the bucket of the cell that holds its position, no two pieces go
/// by the same number, and every number in use was given out.
pub open spec fn field_wf(cells: FoodCells, size: int, issued: int) -> bool {
    &&& size > 0
    &&& issued >= 0
    &&& forall|c: (int, int), id: FoodID|
        cells.contains_key(c) && #[trigger] cells[c].contains_key(id) ==> cell_of(
            cells[c][id].pos,
            size,
        ) == c && 0 < id <= issued
    &&& distinct_ids(cells)
}

/// `cells` with the piece `f` put in under the number `id`.
pub open spec fn with_food(cells: FoodCells, size: int, id: FoodID, f: Food) -> FoodCells {
    cells.insert(cell_of(f.pos, size), pieces_of(cells, cell_of(f.pos, size)).insert(id, f))
}

/// Whether the piece under the number `id` lies in the three by three block
/// of cells round the cell of `p`.
pub open spec fn in_sight(cells: FoodCells, size: int, p: Vec2, id: FoodID) -> bool {
    exists|c: (int, int)|
        adjacent(c, cell_of(p, size)) && cells.contains_key(c) && #[trigger] cells[c].contains_key(id)
}

/// How a piece ranks in a search from `p`: by the square of its distance,
/// then by its number.
pub open spec fn rank(cells: FoodCells, p: Vec2, id: FoodID) -> (int, FoodID) {
    (item_of(cells, id).pos.dist2(p), id)
}

/// Whether the rank `a` is no later than the rank `b`: the nearer piece
/// first, and of two as near the one with the smaller number.
pub open spec fn no_later(a: (int, FoodID), b: (int, FoodID)) -> bool {
    a.0 < b.0 || (a.0 == b.0 && a.1 <= b.1)
}

/// Whether the piece under the number `id` is the one a search from `p`
/// finds: it is in sight, and no piece in sight ranks before it.
pub open spec fn is_found(cells: FoodCells, size: int, p: Vec2, id: FoodID) -> bool {
    &&& in_sight(cells, size, p, id)
    &&& forall|other: FoodID| #[trigger]
        in_sight(cells, size, p, other) ==> no_later(rank(cells, p, id), rank(cells, p, other))
}

/// The number of the piece nearest to `p` among those of the three by three
/// block of cells round the cell of `p`, in a field of cells `size` wide; of
/// pieces as near the one with the smallest number; none where the block is
/// empty.
pub open spec fn found(cells: FoodCells, size: int, p: Vec2) -> Option<FoodID> {
    if exists|id: FoodID| is_found(cells, size, p, id) {
        Some(choose|id: FoodID| is_found(cells, size, p, id))
    } else {
        None
    }
}

/// Where no two buckets share a number, a number leads to the piece in the
/// bucket that holds it.
pub proof fn lemma_item_at(cells: FoodCells, c: (int, int), id: FoodID)
    requires
        distinct_ids(cells),
        cells.contains_key(c),
        cells[c].contains_key(id),
    ensures
        holds_id(cells, id),
        item_of(cells, id) == cells[c][id],
{
    let c2 = choose|c2: (int, int)| cells.contains_key(c2) && #[trigger] cells[c2].contains_key(id);
    assert(cells[c2].contains_key(id));
}

/// The number of the piece that a search holds as its best so far.
pub open spec fn leader(best: Option<(FoodID, u128)>) -> FoodID {
    match best {
        Some((id, _)) => id,
        None => 0,
    }
}

/// A search finds one piece at most.
pub proof fn lemma_found_unique(cells: FoodCells, size: int, p: Vec2, id: FoodID)
    requires
        is_found(cells, size, p, id),
    ensures
        found(cells, size, p) == Some(id),
{
    let other = choose|other: FoodID| is_found(cells, size, p, other);
    assert(in_sight(cells, size, p, other));
    assert(in_sight(cells, size, p, id));
    assert(no_later(rank(cells, p, id), rank(cells, p, other)));
    assert(no_later(rank(cells, p, other), rank(cells, p, id)));
}

/// The numbers under which `bucket` holds pieces, in no particular order.
fn ids_of(bucket: &HashMap<FoodID, Food>) -> (out: Vec<FoodID>)
    ensures
        forall|i: int| 0 <= i < out@.len() ==> bucket@.contains_key(#[trigger] out@[i]),
        forall|id: FoodID|
            bucket@.contains_key(id) ==> exists|i: int| 0 <= i < out@.len() && #[trigger] out@[i] == id,
{
    broadcast use vstd::std_specs::hash::group_hash_axioms;

    let mut out: Vec<FoodID> = Vec::new();
    let keys = bucket.keys();
    let ghost all = keys.remaining();
    assert(all.unref().to_set() == bucket@.dom());
    for id in it: keys
        invariant
            it.seq() == all,
            out@.len() == it.index(),
            forall|i: int| 0 <= i < out@.len() ==> #[trigger] out@[i] == *all[i],
    {
        out.push(*id);
    }
    proof {
        assert forall|i: int| 0 <= i < out@.len() implies bucket@.contains_key(#[trigger] out@[i]) by {
            assert(all.unref()[i] == *all[i]);
            assert(all.unref().to_set().contains(all.unref()[i]));
        }
        assert forall|id: FoodID| bucket@.contains_key(id) implies exists|i: int|
            0 <= i < out@.len() && #[trigger] out@[i] == id by {
            assert(all.unref().to_set().contains(id));
            let i = choose|i: int| 0 <= i < all.unref().len() && all.unref()[i] == id;
            assert(all.unref()[i] == *all[i]);
            assert(out@[i] == id);
        }
    }
    out
}

pub struct FoodWorld {
    grid_size: i32,
    food: Cells<HashMap<FoodID, Food>>,
    next_id: FoodID,
}

impl View for FoodWorld {
    type V = FoodCells;

    /// The pieces of the buckets by their cells.
    closed spec fn view(&self) -> FoodCells {
        Map::new(|c: (int, int)| self.food@.contains_key(c), |c: (int, int)| self.food@[c]@)
    }
}

impl FoodWorld {
    /// The width of a cell.
    pub closed spec fn grid_size(&self) -> int {
        self.grid_size as int
    }

    /// The number given out last; zero before the first.
    pub closed spec fn issued(&self) -> int {
        self.next_id as int
    }

    /// Whether the field is well formed.
    pub open spec fn wf(&self) -> bool {
        field_wf(self@, self.grid_size(), self.issued())
    }

    pub fn new(grid_size: i32) -> (w: Self)
        requires
            grid_size > 0,
        ensures
            w.wf(),
            w.grid_size() == grid_size,
            w.issued() == 0,
            w@ == Map::<(int, int), Map<FoodID, Food>>::empty(),
    {
        let w = FoodWorld { grid_size, food: Cells::new(), next_id: 0 };
        assert(w@ =~= Map::<(int, int), Map<FoodID, Food>>::empty());
        w
    }

    /// The cell that holds `pos`: its coordinates divided by the cell width
    /// and rounded down.
    pub fn pos_to_key(&self, pos: &Vec2) -> (k: (i32, i32))
        requires
            self.wf(),
        ensures
            as_cell(k) == cell_of(*pos, self.grid_size()),
    {
        cell_key(pos, self.grid_size)
    }

    /// The number given out last.
    pub fn last_id(&self) -> (id: FoodID)
        ensures
            id == self.issued(),
    {
        self.next_id
    }

    /// Puts `f` into the bucket of its cell, under the number after the
    /// last one given out.
    pub fn put_food(&mut self, f: Food)
        requires
            old(self).wf(),
            old(self).issued() < usize::MAX,
        ensures
            final(self).wf(),
            final(self).grid_size() == old(self).grid_size(),
            final(self).issued() == old(self).issued() + 1,
            final(self)@ == with_food(
                old(self)@,
                old(self).grid_size(),
                (old(self).issued() + 1) as usize,
                f,
            ),
    {
        broadcast use vstd::std_specs::hash::group_hash_axioms;

        let key = cell_key(&f.pos, self.grid_size);
        self.next_id += 1;
        let mut bucket: HashMap<FoodID, Food> = match self.food.take(key) {
            Some(b) => b,
            None => HashMap::new(),
        };
        assert(bucket@ == pieces_of(old(self)@, as_cell(key)));
        bucket.insert(self.next_id, f);
        self.food.put(key, bucket);
        proof {
            assert(self@ =~= with_food(old(self)@, self.grid_size(), self.next_id, f));
            lemma_put_keeps_wf(old(self)@, self.grid_size(), old(self).issued(), f);
        }
    }

    /// The number of the piece nearest to the point `pos + heading`, among
    /// the pieces of the three by three block of cells round the cell of
    /// that point; of pieces as near the one with the smallest number.
    pub fn find_food(&self, pos: &Vec2, heading: &Vec2) -> (r: Option<FoodID>)
        requires
            self.wf(),
        ensures
            r == found(self@, self.grid_size(), pos.plus(*heading)),
    {
        broadcast use vstd::std_specs::hash::group_hash_axioms;

        let p = pos.add(*heading);
        let k = cell_key(&p, self.grid_size);
        let ghost kk = as_cell(k);
        let ghost size = self.grid_size();
        let mut best: Option<(FoodID, u128)> = None;
        let mut i: i64 = 0;
        while i < 9
            invariant
                0 <= i <= 9,
                self.wf(),
                kk == as_cell(k),
                kk == cell_of(p, size),
                size == self.grid_size(),
                best matches Some((b, d)) ==> in_sight(self@, size, p, b) && d == item_of(
                    self@,
                    b,
                ).pos.dist2(p),
                forall|t: int, other: FoodID|
                    0 <= t < i && #[trigger] pieces_of(self@, neighbour(kk, t)).contains_key(other)
                        ==> best is Some && no_later(
                        rank(self@, p, leader(best)),
                        rank(self@, p, other),
                    ),
            decreases 9 - i,
        {
            let cx: i64 = k.0 as i64 - 1 + i / 3;
            let cy: i64 = k.1 as i64 - 1 + i % 3;
            let ghost c = neighbour(kk, i as int);
            assert(c == (cx as int, cy as int));
            assert(adjacent(c, kk));
            if -2147483648 <= cx && cx <= 2147483647 && -2147483648 <= cy && cy <= 2147483647 {
                match self.food.get((cx as i32, cy as i32)) {
                    Some(bucket) => {
                        let ids = ids_of(bucket);
                        let mut j: usize = 0;
                        while j < ids.len()
                            invariant
                                0 <= j <= ids.len(),
                                0 <= i < 9,
                                self.wf(),
                                kk == cell_of(p, size),
                                size == self.grid_size(),
                                c == neighbour(kk, i as int),
                                adjacent(c, kk),
                                self@.contains_key(c),
                                bucket@ == self@[c],
                                forall|t: int|
                                    0 <= t < ids@.len() ==> bucket@.contains_key(#[trigger] ids@[t]),
                                best matches Some((b, d)) ==> in_sight(self@, size, p, b) && d
                                    == item_of(self@, b).pos.dist2(p),
                                forall|t: int, other: FoodID|
                                    0 <= t < i && #[trigger] pieces_of(
                                        self@,
                                        neighbour(kk, t),
                                    ).contains_key(other) ==> best is Some && no_later(
                                        rank(self@, p, leader(best)),
                                        rank(self@, p, other),
                                    ),
                                forall|t: int|
                                    0 <= t < j ==> best is Some && no_later(
                                        rank(self@, p, leader(best)),
                                        rank(self@, p, #[trigger] ids@[t]),
                                    ),
                            decreases ids.len() - j,
                        {
                            let id: FoodID = ids[j];
                            match bucket.get(&id) {
                                Some(f) => {
                                    let d: u128 = f.pos.distance_squared(p);
                                    proof {
                                        lemma_item_at(self@, c, id);
                                        assert(in_sight(self@, size, p, id));
                                    }
                                    let better: bool = match best {
                                        Some((b, least)) => d < least || (d == least && id < b),
                                        None => true,
                                    };
                                    if better {
                                        best = Some((id, d));
                                    }
                                },
                                None => {},
                            }
                            j += 1;
                        }
                        proof {
                            assert forall|t: int, other: FoodID|
                                0 <= t < i + 1 && #[trigger] pieces_of(
                                    self@,
                                    neighbour(kk, t),
                                ).contains_key(other) implies best is Some && no_later(
                                rank(self@, p, leader(best)),
                                rank(self@, p, other),
                            ) by {
                                if t == i {
                                    let at = choose|at: int|
                                        0 <= at < ids@.len() && #[trigger] ids@[at] == other;
                                    assert(ids@[at] == other);
                                }
                            }
                        }
                    },
                    None => {},
                }
            } else {
                proof {
                    if self.food@.contains_key(c) {
                        self.food.lemma_in_range(c);
                    }
                }
            }
            i += 1;
        }
        match best {
            Some((b, _)) => {
                proof {
                    assert forall|other: FoodID| #[trigger]
                        in_sight(self@, size, p, other) implies no_later(
                        rank(self@, p, b),
                        rank(self@, p, other),
                    ) by {
                        let c = choose|c: (int, int)|
                            adjacent(c, kk) && self@.contains_key(c) && #[trigger] self@[c].contains_key(
                                other,
                            );
                        let t = (c.0 - kk.0 + 1) * 3 + (c.1 - kk.1 + 1);
                        assert(neighbour(kk, t) == c);
                        assert(pieces_of(self@, neighbour(kk, t)).contains_key(other));
                    }
                    lemma_found_unique(self@, size, p, b);
                }
                Some(b)
            },
            None => {
                proof {
                    if exists|id: FoodID| is_found(self@, size, p, id) {
                        let id = choose|id: FoodID| is_found(self@, size, p, id);
                        let c = choose|c: (int, int)|
                            adjacent(c, kk) && self@.contains_key(c) && #[trigger] self@[c].contains_key(
                                id,
                            );
                        let t = (c.0 - kk.0 + 1) * 3 + (c.1 - kk.1 + 1);
                        assert(neighbour(kk, t) == c);
                        assert(pieces_of(self@, neighbour(kk, t)).contains_key(id));
                    }
                }
                None
            },
        }
    }

    /// The cell whose bucket holds the piece with the number `id`.
    fn locate(&self, id: FoodID) -> (r: Option<(i32, i32)>)
        ensures
            match r {
                Some(k) => self@.contains_key(as_cell(k)) && self@[as_cell(k)].contains_key(id),
                None => !holds_id(self@, id),
            },
    {
        broadcast use vstd::std_specs::hash::group_hash_axioms;

        let keys = self.food.keys();
        let mut n: usize = 0;
        while n < keys.len()
            invariant
                0 <= n <= keys.len(),
                forall|i: int|
                    0 <= i < keys@.len() ==> self@.contains_key(#[trigger] as_cell(keys@[i])),
                forall|i: int| 0 <= i < n ==> !self@[#[trigger] as_cell(keys@[i])].contains_key(id),
            decreases keys.len() - n,
        {
            match self.food.get(keys[n]) {
                Some(bucket) => {
                    if bucket.contains_key(&id) {
                        return Some(keys[n]);
                    }
                },
                None => {},
            }
            n += 1;
        }
        proof {
            if holds_id(self@, id) {
                let c = choose|c: (int, int)| self@.contains_key(c) && #[trigger] self@[c].contains_key(id);
                let i = choose|i: int| 0 <= i < keys@.len() && #[trigger] as_cell(keys@[i]) == c;
                assert(!self@[as_cell(keys@[i])].contains_key(id));
            }
        }
        None
    }

    /// The piece of food with the number `food_id`, if the field holds it.
    pub fn get_food(&self, food_id: FoodID) -> (r: Option<&Food>)
        requires
            self.wf(),
        ensures
            match r {
                Some(f) => holds_id(self@, food_id) && *f == item_of(self@, food_id),
                None => !holds_id(self@, food_id),
            },
    {
        broadcast use vstd::std_specs::hash::group_hash_axioms;

        match self.locate(food_id) {
            Some(k) => {
                match self.food.get(k) {
                    Some(bucket) => {
                        proof {
                            lemma_item_at(self@, as_cell(k), food_id);
                        }
                        bucket.get(&food_id)
                    },
                    None => None,
                }
            },
            None => None,
        }
    }

    /// Takes the piece of food with the number `food_id` out of the field
    /// and returns it; nothing where the field does not hold it. The bucket
    /// stays, even empty, until the next `update`.
    pub fn take_food(&mut self, food_id: FoodID) -> (r: Option<Food>)
        requires
            old(self).wf(),
        ensures
            final(self).wf(),
            final(self).grid_size() == old(self).grid_size(),
            final(self).issued() == old(self).issued(),
            final(self)@ == without(old(self)@, food_id),
            match r {
                Some(f) => holds_id(old(self)@, food_id) && f == item_of(old(self)@, food_id),
                None => !holds_id(old(self)@, food_id),
            },
    {
        broadcast use vstd::std_specs::hash::group_hash_axioms;

        let ghost before = self@;
        proof {
            lemma_without_keeps_wf(before, food_id, self.grid_size(), self.issued());
        }
        match self.locate(food_id) {
            Some(k) => {
                let ghost c = as_cell(k);
                proof {
                    lemma_item_at(before, c, food_id);
                }
                let mut taken: Option<Food> = None;
                match self.food.take(k) {
                    Some(bucket) => {
                        let mut bucket = bucket;
                        taken = bucket.remove(&food_id);
                        self.food.put(k, bucket);
                    },
                    None => {},
                }
                proof {
                    let wanted = without(before, food_id);
                    assert forall|x: (int, int)| self@.contains_key(x) implies self@[x]
                        == wanted[x] by {
                        if x != c {
                            if before[x].contains_key(food_id) {
                                assert(before[c].contains_key(food_id));
                            }
                            assert(before[x].remove(food_id) =~= before[x]);
                        }
                    }
                    assert(self@ =~= wanted);
                }
                taken
            },
            None => {
                proof {
                    let wanted = without(before, food_id);
                    assert forall|x: (int, int)| before.contains_key(x) implies before[x]
                        == wanted[x] by {
                        assert(!before[x].contains_key(food_id));
                        assert(before[x].remove(food_id) =~= before[x]);
                    }
                    assert(before =~= wanted);
                }
                None
            },
        }
    }

    /// Removes the buckets that hold nothing; food does not decay.
    pub fn update(&mut self, _d: i32)
        requires
            old(self).wf(),
        ensures
            final(self).wf(),
            final(self).grid_size() == old(self).grid_size(),
            final(self).issued() == old(self).issued(),
            final(self)@ == pruned(old(self)@),
    {
        broadcast use vstd::std_specs::hash::group_hash_axioms;

        let keys = self.food.keys();
        let mut n: usize = 0;
        while n < keys.len()
            invariant
                0 <= n <= keys.len(),
                keys@.no_duplicates(),
                self.grid_size() == old(self).grid_size(),
                self.issued() == old(self).issued(),
                forall|c: (int, int)|
                    #[trigger] self@.contains_key(c) ==> old(self)@.contains_key(c) && self@[c]
                        == old(self)@[c],
                forall|i: int|
                    0 <= i < keys@.len() ==> old(self)@.contains_key(#[trigger] as_cell(keys@[i])),
                forall|i: int|
                    0 <= i < n ==> (self@.contains_key(#[trigger] as_cell(keys@[i])) <==> !old(self)@[as_cell(
                        keys@[i],
                    )].is_empty()),
                forall|i: int|
                    n <= i < keys@.len() ==> self@.contains_key(#[trigger] as_cell(keys@[i])),
            decreases keys.len() - n,
        {
            let k = keys[n];
            let ghost before = self@;
            let empty: bool = match self.food.get(k) {
                Some(bucket) => bucket.is_empty(),
                None => false,
            };
            if empty {
                let _ = self.food.take(k);
            }
            proof {
                assert(as_cell(keys@[n as int]) == as_cell(k));
                assert forall|c: (int, int)| #[trigger] self@.contains_key(c) implies old(
                    self,
                )@.contains_key(c) && self@[c] == old(self)@[c] by {
                    assert(before.contains_key(c));
                }
                assert forall|i: int| 0 <= i < keys@.len() && i != n implies as_cell(keys@[i])
                    != as_cell(k) by {
                    assert(keys@[i] != keys@[n as int]);
                }
                assert forall|i: int| 0 <= i < n + 1 implies (self@.contains_key(
                    #[trigger] as_cell(keys@[i]),
                ) <==> !old(self)@[as_cell(keys@[i])].is_empty()) by {
                    if i < n {
                        assert(before.contains_key(as_cell(keys@[i])) == self@.contains_key(
                            as_cell(keys@[i]),
                        ));
                    }
                }
                assert forall|i: int| n + 1 <= i < keys@.len() implies self@.contains_key(
                    #[trigger] as_cell(keys@[i]),
                ) by {
                    assert(before.contains_key(as_cell(keys@[i])));
                }
            }
            n += 1;
        }
        proof {
            let wanted = pruned(old(self)@);
            assert forall|c: (int, int)| self@.contains_key(c) <==> wanted.contains_key(c) by {
                if old(self)@.contains_key(c) {
                    let i = choose|i: int| 0 <= i < keys@.len() && #[trigger] as_cell(keys@[i]) == c;
                    assert(as_cell(keys@[i]) == c);
                }
            }
            assert(self@ =~= wanted);
        }
    }
}

/// Where a piece is in sight, a search finds one: the pieces in sight are
/// ranked by natural numbers, so one of them ranks first.
pub proof fn lemma_some_found(cells: FoodCells, size: int, p: Vec2, id: FoodID)
    requires
        in_sight(cells, size, p, id),
    ensures
        found(cells, size, p) is Some,
        is_found(cells, size, p, found(cells, size, p).unwrap()),
        no_later(rank(cells, p, found(cells, size, p).unwrap()), rank(cells, p, id)),
    decreases item_of(cells, id).pos.dist2(p), id,
{
    let here = item_of(cells, id).pos;
    assert(here.dist2(p) >= 0) by (nonlinear_arith)
        requires
            here.dist2(p) == (here.x - p.x) * (here.x - p.x) + (here.y - p.y) * (here.y - p.y),
    ;
    if is_found(cells, size, p, id) {
        lemma_found_unique(cells, size, p, id);
    } else {
        let other = choose|other: FoodID|
            in_sight(cells, size, p, other) && !no_later(rank(cells, p, id), rank(cells, p, other));
        let there = item_of(cells, other).pos;
        assert(there.dist2(p) >= 0) by (nonlinear_arith)
            requires
                there.dist2(p) == (there.x - p.x) * (there.x - p.x) + (there.y - p.y) * (there.y
                    - p.y),
        ;
        lemma_some_found(cells, size, p, other);
    }
}

/// What `find_food` returns from a point is the number of a piece the field
/// holds, whose cell is the cell of that point or one of the eight next to
/// it, and no piece of those cells lies nearer to the point.
pub proof fn lemma_found(cells: FoodCells, size: int, issued: int, p: Vec2, id: FoodID)
    requires
        field_wf(cells, size, issued),
        found(cells, size, p) == Some(id),
    ensures
        holds_id(cells, id),
        adjacent(cell_of(item_of(cells, id).pos, size), cell_of(p, size)),
        forall|c: (int, int), other: FoodID|
            adjacent(c, cell_of(p, size)) && cells.contains_key(c) && #[trigger] cells[c].contains_key(
                other,
            ) ==> cells[c][other].pos.dist2(p) >= item_of(cells, id).pos.dist2(p),
{
    assert(is_found(cells, size, p, id));
    let c0 = choose|c: (int, int)|
        adjacent(c, cell_of(p, size)) && cells.contains_key(c) && #[trigger] cells[c].contains_key(id);
    lemma_item_at(cells, c0, id);
    assert forall|c: (int, int), other: FoodID|
        adjacent(c, cell_of(p, size)) && cells.contains_key(c) && #[trigger] cells[c].contains_key(
            other,
        ) implies cells[c][other].pos.dist2(p) >= item_of(cells, id).pos.dist2(p) by {
        lemma_item_at(cells, c, other);
        assert(in_sight(cells, size, p, other));
    }
}

/// A piece put into a well-formed field under the next number leaves it
/// well formed.
pub proof fn lemma_put_keeps_wf(cells: FoodCells, size: int, issued: int, f: Food)
    requires
        field_wf(cells, size, issued),
        issued < usize::MAX,
    ensures
        field_wf(with_food(cells, size, (issued + 1) as usize, f), size, issued + 1),
{
    let id = (issued + 1) as usize;
    let c = cell_of(f.pos, size);
    let after = with_food(cells, size, id, f);
    assert forall|x: (int, int), n: FoodID|
        after.contains_key(x) && #[trigger] after[x].contains_key(n) implies cell_of(
        after[x][n].pos,
        size,
    ) == x && 0 < n <= issued + 1 by {
        if !(x == c && n == id) {
            assert(cells.contains_key(x) && cells[x].contains_key(n));
        }
    }
    assert forall|c1: (int, int), c2: (int, int), n: FoodID|
        after.contains_key(c1) && #[trigger] after[c1].contains_key(n) && after.contains_key(c2)
            && #[trigger] after[c2].contains_key(n) implies c1 == c2 by {
        if n == id {
            if c1 != c {
                assert(cells.contains_key(c1) && cells[c1].contains_key(n));
            }
            if c2 != c {
                assert(cells.contains_key(c2) && cells[c2].contains_key(n));
            }
        } else {
            assert(cells.contains_key(c1) && cells[c1].contains_key(n));
            assert(cells.contains_key(c2) && cells[c2].contains_key(n));
        }
    }
}

/// Taking a piece out leaves a well-formed field well formed.
proof fn lemma_without_keeps_wf(cells: FoodCells, id: FoodID, size: int, issued: int)
    requires
        field_wf(cells, size, issued),
    ensures
        field_wf(without(cells, id), size, issued),
        !holds_id(without(cells, id), id),
{
    let after = without(cells, id);
    assert forall|c: (int, int), x: FoodID|
        after.contains_key(c) && #[trigger] after[c].contains_key(x) implies cell_of(
        after[c][x].pos,
        size,
    ) == c && 0 < x <= issued by {
        assert(cells[c].contains_key(x));
    }
    assert forall|c1: (int, int), c2: (int, int), x: FoodID|
        after.contains_key(c1) && #[trigger] after[c1].contains_key(x) && after.contains_key(c2)
            && #[trigger] after[c2].contains_key(x) implies c1 == c2 by {
        assert(cells[c1].contains_key(x));
        assert(cells[c2].contains_key(x));
    }
}

/// A piece of food can be taken once: with it taken out, the field holds
/// nothing under its number, a second taking changes nothing, and every
/// other number is held as before, with its piece.
pub proof fn lemma_take_once(cells: FoodCells, id: FoodID)
    ensures
        !holds_id(without(cells, id), id),
        without(without(cells, id), id) == without(cells, id),
        forall|other: FoodID|
            other != id ==> (holds_id(without(cells, id), other) <==> holds_id(cells, other)),
{
    let after = without(cells, id);
    assert forall|c: (int, int)| after.contains_key(c) implies #[trigger] after[c].remove(id)
        == after[c] by {
        assert(after[c].remove(id) =~= after[c]);
    }
    assert(without(after, id) =~= after);
    assert forall|other: FoodID| other != id implies (holds_id(after, other) <==> holds_id(
        cells,
        other,
    )) by {
        if holds_id(after, other) {
            let c = choose|c: (int, int)| after.contains_key(c) && #[trigger] after[c].contains_key(other);
            assert(cells[c].contains_key(other));
        }
        if holds_id(cells, other) {
            let c = choose|c: (int, int)| cells.contains_key(c) && #[trigger] cells[c].contains_key(other);
            assert(after[c].contains_key(other));
        }
    }
}

} // verus!

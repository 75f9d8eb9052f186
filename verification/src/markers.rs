//! The marker field: pheromone-like signals that fade.
//!
//! A marker is of kind Home or Food, lies at a position, and has a life that
//! runs down with time. The field keeps the markers in a grid of buckets; a
//! bucket exists as long as it holds a marker.

use vstd::prelude::*;
use crate::gobj::{Gobj, FOOD_MARKER_LIFE, HOME_MARKER_LIFE};
use crate::particles::ParticleStyle;
use crate::resources::{COL_MARKER_FOOD, COL_MARKER_HOME};
use crate::grid::{adjacent, around, as_cell, bucket_of, cell_of, lemma_around_contains, Grid};
use crate::vector::{sat, saturate, Vec2};

verus! {

/// A cell takes no further Home marker once it holds more than this many.
pub const MAX_HOME_MARKERS_PER_CELL: usize = 14;

/// The radius a marker is drawn with: three and a half times an ant's.
pub const MARKER_RENDER_RAD: i32 = 11200;

/// The kind of a marker.
#[derive(Clone, Copy, Debug, PartialEq, Eq, Structural)]
pub enum MarkerKind {
    Home,
    Food,
}

/// A marker: its position and what is left of its life, in thousandths of a
/// second.
#[derive(Clone, Copy, Debug, PartialEq, Eq, Structural)]
pub enum Marker {
    Home(Vec2, i32),
    Food(Vec2, i32),
}

/// Whether a query for `want` returns markers of the kind of `m`: `None`
/// asks for every kind.
pub open spec fn admitted(want: Option<MarkerKind>, m: Marker) -> bool {
    match want {
        None => true,
        Some(MarkerKind::Home) => m is Home,
        Some(MarkerKind::Food) => m is Food,
    }
}

/// `admitted` as a predicate on markers.
pub open spec fn admits(want: Option<MarkerKind>) -> spec_fn(Marker) -> bool {
    |m: Marker| admitted(want, m)
}

/// The markers that are still alive after a time `d`.
pub open spec fn outlives(d: int) -> spec_fn(Marker) -> bool {
    |m: Marker| m.remaining() - d > 0
}

/// A marker a time `d` later.
pub open spec fn ages(d: int) -> spec_fn(Marker) -> Marker {
    |m: Marker| m.aged(d)
}

/// The Home markers.
pub open spec fn homes() -> spec_fn(Marker) -> bool {
    |m: Marker| m is Home
}

/// What is left of a bucket after a time `d`: the markers that outlive it,
/// each that much older, in their order.
pub open spec fn decayed(s: Seq<Marker>, d: int) -> Seq<Marker> {
    s.filter(outlives(d)).map_values(ages(d))
}

impl Marker {
    /// Where the marker lies.
    pub open spec fn place(self) -> Vec2 {
        match self {
            Marker::Home(p, _) => p,
            Marker::Food(p, _) => p,
        }
    }

    /// What is left of its life.
    pub open spec fn remaining(self) -> int {
        match self {
            Marker::Home(_, l) => l as int,
            Marker::Food(_, l) => l as int,
        }
    }

    /// Its kind.
    pub open spec fn sort(self) -> MarkerKind {
        match self {
            Marker::Home(..) => MarkerKind::Home,
            Marker::Food(..) => MarkerKind::Food,
        }
    }

    /// The marker a time `d` later: the same kind and place, the life less
    /// by `d`.
    pub open spec fn aged(self, d: int) -> Marker {
        match self {
            Marker::Home(p, l) => Marker::Home(p, sat(l - d) as i32),
            Marker::Food(p, l) => Marker::Food(p, sat(l - d) as i32),
        }
    }

    pub fn pos(&self) -> (p: &Vec2)
        ensures
            *p == self.place(),
    {
        match self {
            Marker::Home(p, _) => p,
            Marker::Food(p, _) => p,
        }
    }

    pub fn life(&self) -> (l: i32)
        ensures
            l == self.remaining(),
    {
        match self {
            Marker::Home(_, l) => *l,
            Marker::Food(_, l) => *l,
        }
    }

    pub fn kind(&self) -> (k: MarkerKind)
        ensures
            k == self.sort(),
    {
        match self {
            Marker::Home(..) => MarkerKind::Home,
            Marker::Food(..) => MarkerKind::Food,
        }
    }

    /// Whether a query for `want` returns this marker.
    pub fn matches(&self, want: Option<MarkerKind>) -> (b: bool)
        ensures
            b == admitted(want, *self),
    {
        match want {
            None => true,
            Some(MarkerKind::Home) => match self {
                Marker::Home(..) => true,
                Marker::Food(..) => false,
            },
            Some(MarkerKind::Food) => match self {
                Marker::Home(..) => false,
                Marker::Food(..) => true,
            },
        }
    }

    /// The marker a time `d` later.
    pub fn older(&self, d: i32) -> (m: Marker)
        ensures
            m == self.aged(d as int),
    {
        match self {
            Marker::Home(p, l) => Marker::Home(*p, saturate(*l as i64 - d as i64)),
            Marker::Food(p, l) => Marker::Food(*p, saturate(*l as i64 - d as i64)),
        }
    }
}

/// The buckets of a marker field by their cells.
pub type MarkerCells = Map<(int, int), Seq<Marker>>;

/// Whether `cells` holds `m`.
pub open spec fn stored(cells: MarkerCells, m: Marker) -> bool {
    exists|c: (int, int)| cells.contains_key(c) && #[trigger] cells[c].contains(m)
}

/// What a query for `want` sees from the point `p` in a field of cells
/// `size` wide: the markers of the wanted kind in the three by three block of
/// cells round the cell of `p`, cell after cell.
pub open spec fn seen(cells: MarkerCells, size: int, p: Vec2, want: Option<MarkerKind>) -> Seq<Marker> {
    around(cells, cell_of(p, size)).filter(admits(want))
}

/// Whether the cell that holds `p` takes no further Home marker.
pub open spec fn full_at(cells: MarkerCells, size: int, p: Vec2) -> bool {
    bucket_of(cells, cell_of(p, size)).filter(homes()).len() > MAX_HOME_MARKERS_PER_CELL
}

/// Whether `create_marker` turns `m` away.
pub open spec fn refuses(cells: MarkerCells, size: int, m: Marker) -> bool {
    m is Home && full_at(cells, size, m.place())
}

/// The field with `m` added to the bucket of its cell.
pub open spec fn with_marker(cells: MarkerCells, size: int, m: Marker) -> MarkerCells {
    cells.insert(cell_of(m.place(), size), bucket_of(cells, cell_of(m.place(), size)).push(m))
}

/// The field after `create_marker` was asked to add `m`.
pub open spec fn after_create(cells: MarkerCells, size: int, m: Marker) -> MarkerCells {
    if refuses(cells, size, m) {
        cells
    } else {
        with_marker(cells, size, m)
    }
}

/// The field a time `d` later: every bucket decayed, and gone where nothing
/// is left of it.
pub open spec fn later(cells: MarkerCells, d: int) -> MarkerCells {
    Map::new(
        |c: (int, int)| cells.contains_key(c) && decayed(cells[c], d).len() > 0,
        |c: (int, int)| decayed(cells[c], d),
    )
}

/// A field is well formed when its cells have a positive width, every marker
/// lies in the bucket of the cell that holds its position, and no bucket is
/// empty.
pub open spec fn field_wf(cells: MarkerCells, size: int) -> bool {
    &&& size > 0
    &&& forall|c: (int, int), i: int|
        cells.contains_key(c) && 0 <= i < cells[c].len() ==> cell_of(
            (#[trigger] cells[c][i]).place(),
            size,
        ) == c
    &&& forall|c: (int, int)| cells.contains_key(c) ==> (#[trigger] cells[c]).len() > 0
}

pub struct MarkerWorld {
    grid: Grid<Marker>,
}

impl View for MarkerWorld {
    type V = MarkerCells;

    /// The buckets by their cells.
    closed spec fn view(&self) -> MarkerCells {
        self.grid@
    }
}

impl MarkerWorld {
    /// The width of a cell.
    pub closed spec fn grid_size(&self) -> int {
        self.grid.cell_size()
    }

    /// Whether the field is well formed.
    pub open spec fn wf(&self) -> bool {
        field_wf(self@, self.grid_size())
    }

    pub fn new(grid_size: i32) -> (w: Self)
        requires
            grid_size > 0,
        ensures
            w.wf(),
            w.grid_size() == grid_size,
            w@ == Map::<(int, int), Seq<Marker>>::empty(),
    {
        MarkerWorld { grid: Grid::new(grid_size) }
    }

    /// The cell that holds `pos`: its coordinates divided by the cell width
    /// and rounded down.
    pub fn pos_to_key(&self, pos: &Vec2) -> (k: (i32, i32))
        requires
            self.wf(),
        ensures
            as_cell(k) == cell_of(*pos, self.grid_size()),
    {
        self.grid.key(pos)
    }

    /// The number of Home markers among `v`.
    fn count_homes(v: &Vec<Marker>) -> (n: usize)
        ensures
            n == v@.filter(homes()).len(),
    {
        let mut n: usize = 0;
        let mut j: usize = 0;
        while j < v.len()
            invariant
                0 <= j <= v.len(),
                n == v@.take(j as int).filter(homes()).len(),
                n <= j,
            decreases v.len() - j,
        {
            proof {
                reveal(Seq::filter);
                assert(v@.take(j + 1).drop_last() == v@.take(j as int));
            }
            match v[j] {
                Marker::Home(..) => {
                    n += 1;
                },
                Marker::Food(..) => {},
            }
            j += 1;
        }
        assert(v@.take(v.len() as int) == v@);
        n
    }

    /// Adds `m` to the bucket of its cell, and announces it with a burst of
    /// particles on `spawn_queue`. A Home marker for a cell that already
    /// holds more than `MAX_HOME_MARKERS_PER_CELL` of them is dropped without
    /// a word: the field and the queue stay as they are.
    pub fn create_marker(&mut self, m: Marker, spawn_queue: &mut Vec<Gobj>)
        requires
            old(self).wf(),
        ensures
            final(self).wf(),
            final(self).grid_size() == old(self).grid_size(),
            final(self)@ == after_create(old(self)@, old(self).grid_size(), m),
            refuses(old(self)@, old(self).grid_size(), m) ==> final(spawn_queue)@ == old(spawn_queue)@,
            !refuses(old(self)@, old(self).grid_size(), m) ==> final(spawn_queue)@.len()
                == old(spawn_queue)@.len() + 1 && final(spawn_queue)@.drop_last()
                == old(spawn_queue)@ && final(spawn_queue)@.last()@.announces(m)
                && final(spawn_queue)@.last().wf(),
    {
        let key = self.grid.key(m.pos());
        match m {
            Marker::Home(..) => {
                let crowded: bool = match self.grid.cell(key) {
                    Some(v) => Self::count_homes(v) > MAX_HOME_MARKERS_PER_CELL,
                    None => {
                        assert(Seq::<Marker>::empty().filter(homes()).len() == 0) by {
                            Seq::<Marker>::empty().lemma_filter_len(homes());
                        }
                        false
                    },
                };
                if crowded {
                    return ;
                }
            },
            Marker::Food(..) => {},
        }
        let burst = match m {
            Marker::Home(..) => Gobj::new_particles(
                m.pos(),
                2,
                HOME_MARKER_LIFE,
                MARKER_RENDER_RAD / 2,
                COL_MARKER_HOME,
                ParticleStyle::Orbit(500, 30),
            ),
            Marker::Food(..) => Gobj::new_particles(
                m.pos(),
                3,
                FOOD_MARKER_LIFE,
                MARKER_RENDER_RAD / 2,
                COL_MARKER_FOOD,
                ParticleStyle::Orbit(900, 60),
            ),
        };
        spawn_queue.push(burst);
        self.grid.push(key, m);
        proof {
            let c = as_cell(key);
            let grown = bucket_of(old(self)@, c).push(m);
            assert(self@ == with_marker(old(self)@, old(self).grid_size(), m));
            assert forall|x: (int, int), i: int|
                self@.contains_key(x) && 0 <= i < self@[x].len() implies cell_of(
                (#[trigger] self@[x][i]).place(),
                self.grid_size(),
            ) == x by {
                if x == c {
                    if i < grown.len() - 1 {
                        assert(grown[i] == old(self)@[c][i]);
                    }
                } else {
                    assert(self@[x][i] == old(self)@[x][i]);
                }
            }
            assert forall|x: (int, int)| self@.contains_key(x) implies (#[trigger] self@[x]).len()
                > 0 by {
                if x != c {
                    assert(self@[x] == old(self)@[x]);
                }
            }
        }
    }

    /// A copy of the markers that a query for `want` sees from the point
    /// `pos + heading`: those of the wanted kind in the three by three block
    /// of cells round the cell of that point.
    pub fn local_markers(&self, pos: &Vec2, heading: &Vec2, want: Option<MarkerKind>) -> (out:
        Vec<Marker>)
        requires
            self.wf(),
        ensures
            out@ == seen(self@, self.grid_size(), pos.plus(*heading), want),
    {
        let p = pos.add(*heading);
        let k = self.grid.key(&p);
        let all = self.grid.local(k);
        let mut out: Vec<Marker> = Vec::new();
        let mut j: usize = 0;
        while j < all.len()
            invariant
                0 <= j <= all.len(),
                out@ == all@.take(j as int).filter(admits(want)),
            decreases all.len() - j,
        {
            proof {
                reveal(Seq::filter);
                assert(all@.take(j + 1).drop_last() == all@.take(j as int));
            }
            if all[j].matches(want) {
                out.push(all[j]);
            }
            j += 1;
        }
        assert(all@.take(all.len() as int) == all@);
        out
    }

    /// What is left of `v` after a time `d`.
    fn age(v: &Vec<Marker>, d: i32) -> (out: Vec<Marker>)
        ensures
            out@ == decayed(v@, d as int),
    {
        let mut out: Vec<Marker> = Vec::new();
        let mut j: usize = 0;
        while j < v.len()
            invariant
                0 <= j <= v.len(),
                out@ == decayed(v@.take(j as int), d as int),
            decreases v.len() - j,
        {
            proof {
                reveal(Seq::filter);
                assert(v@.take(j + 1).drop_last() == v@.take(j as int));
            }
            if v[j].life() as i64 - d as i64 > 0 {
                out.push(v[j].older(d));
            }
            j += 1;
        }
        assert(v@.take(v.len() as int) == v@);
        out
    }

    /// Lets a time `d` pass: every marker's life falls by `d`, a marker
    /// whose life has run out leaves the field, and so does a bucket that
    /// holds no marker any more.
    pub fn update(&mut self, d: i32)
        requires
            old(self).wf(),
        ensures
            final(self).wf(),
            final(self).grid_size() == old(self).grid_size(),
            final(self)@ == later(old(self)@, d as int),
    {
        let keys = self.grid.cell_list();
        let mut n: usize = 0;
        while n < keys.len()
            invariant
                0 <= n <= keys.len(),
                keys@.no_duplicates(),
                self.grid_size() == old(self).grid_size(),
                forall|c: (int, int)| self@.contains_key(c) ==> old(self)@.contains_key(c),
                forall|i: int|
                    0 <= i < keys@.len() ==> old(self)@.contains_key(#[trigger] as_cell(keys@[i])),
                forall|i: int|
                    0 <= i < n ==> {
                        let c = #[trigger] as_cell(keys@[i]);
                        &&& self@.contains_key(c) <==> decayed(old(self)@[c], d as int).len() > 0
                        &&& self@.contains_key(c) ==> self@[c] == decayed(old(self)@[c], d as int)
                    },
                forall|i: int|
                    n <= i < keys@.len() ==> {
                        let c = #[trigger] as_cell(keys@[i]);
                        self@.contains_key(c) && self@[c] == old(self)@[c]
                    },
            decreases keys.len() - n,
        {
            let k = keys[n];
            let ghost before = self@;
            let kept: Vec<Marker> = match self.grid.cell(k) {
                Some(v) => Self::age(v, d),
                None => Vec::new(),
            };
            assert(as_cell(keys@[n as int]) == as_cell(k));
            assert(kept@ == decayed(old(self)@[as_cell(k)], d as int));
            if kept.len() == 0 {
                self.grid.remove(k);
            } else {
                self.grid.put(k, kept);
            }
            proof {
                assert forall|i: int| 0 <= i < keys@.len() && i != n implies as_cell(keys@[i])
                    != as_cell(k) by {
                    assert(keys@[i] != keys@[n as int]);
                }
                assert forall|i: int| 0 <= i < n + 1 implies ({
                    let c = #[trigger] as_cell(keys@[i]);
                    &&& self@.contains_key(c) <==> decayed(old(self)@[c], d as int).len() > 0
                    &&& self@.contains_key(c) ==> self@[c] == decayed(old(self)@[c], d as int)
                }) by {
                    let c = as_cell(keys@[i]);
                    if i < n {
                        assert(c != as_cell(k));
                        assert(before.contains_key(c) == self@.contains_key(c));
                    }
                }
                assert forall|i: int| n + 1 <= i < keys@.len() implies ({
                    let c = #[trigger] as_cell(keys@[i]);
                    self@.contains_key(c) && self@[c] == old(self)@[c]
                }) by {
                    let c = as_cell(keys@[i]);
                    assert(c != as_cell(k));
                    assert(before.contains_key(c));
                }
            }
            n += 1;
        }
        proof {
            let wanted = later(old(self)@, d as int);
            assert forall|c: (int, int)| self@.contains_key(c) <==> wanted.contains_key(c) by {
                if old(self)@.contains_key(c) {
                    let i = choose|i: int| 0 <= i < keys@.len() && #[trigger] as_cell(keys@[i]) == c;
                    assert(as_cell(keys@[i]) == c);
                }
            }
            assert forall|c: (int, int)| self@.contains_key(c) implies self@[c] == wanted[c] by {
                let i = choose|i: int| 0 <= i < keys@.len() && #[trigger] as_cell(keys@[i]) == c;
                assert(as_cell(keys@[i]) == c);
            }
            assert(self@ =~= wanted);
            assert forall|c: (int, int), i: int|
                self@.contains_key(c) && 0 <= i < self@[c].len() implies cell_of(
                (#[trigger] self@[c][i]).place(),
                self.grid_size(),
            ) == c by {
                lemma_decayed_from(old(self)@[c], d as int, i);
                let j = choose|j: int|
                    0 <= j < old(self)@[c].len() && (#[trigger] old(self)@[c][j]).remaining() - d
                        > 0 && decayed(old(self)@[c], d as int)[i] == old(self)@[c][j].aged(d as int);
                assert(old(self)@[c][j].place() == self@[c][i].place());
            }
        }
    }
}

/// A query returns a marker if and only if the field holds it, the cell of
/// its position is the cell of the query point or one of the eight next to
/// it, and it is of the kind asked for: never one whose cell is more than one
/// cell away.
pub proof fn lemma_seen(cells: MarkerCells, size: int, p: Vec2, want: Option<MarkerKind>, m: Marker)
    requires
        field_wf(cells, size),
    ensures
        seen(cells, size, p, want).contains(m) <==> stored(cells, m) && adjacent(
            cell_of(m.place(), size),
            cell_of(p, size),
        ) && admitted(want, m),
{
    broadcast use vstd::seq_lib::group_filter_ensures;

    let k = cell_of(p, size);
    let all = around(cells, k);
    let home = cell_of(m.place(), size);
    lemma_around_contains(cells, k, m);
    if seen(cells, size, p, want).contains(m) {
        all.lemma_filter_contains_rev(admits(want), m);
        let i = choose|i: int| 0 <= i < all.filter(admits(want)).len() && all.filter(admits(want))[i]
            == m;
        assert(admits(want)(all.filter(admits(want))[i]));
        let c = choose|c: (int, int)| adjacent(c, k) && #[trigger] bucket_of(cells, c).contains(m);
        assert(cells.contains_key(c));
        let j = choose|j: int| 0 <= j < cells[c].len() && cells[c][j] == m;
        assert(cell_of(cells[c][j].place(), size) == c);
        assert(cells[c].contains(m));
    }
    if stored(cells, m) && adjacent(home, k) && admitted(want, m) {
        let c = choose|c: (int, int)| cells.contains_key(c) && #[trigger] cells[c].contains(m);
        let j = choose|j: int| 0 <= j < cells[c].len() && cells[c][j] == m;
        assert(cell_of(cells[c][j].place(), size) == c);
        assert(bucket_of(cells, home).contains(m));
        assert(all.contains(m));
        let i = choose|i: int| 0 <= i < all.len() && all[i] == m;
        assert(admits(want)(all[i]));
    }
}

/// A marker that the field took is seen from every point whose cell is the
/// marker's own or one of the eight next to it, by a query for its kind or
/// for any kind.
pub proof fn lemma_created_is_seen(
    cells: MarkerCells,
    size: int,
    m: Marker,
    p: Vec2,
    want: Option<MarkerKind>,
)
    requires
        field_wf(cells, size),
        !refuses(cells, size, m),
        adjacent(cell_of(m.place(), size), cell_of(p, size)),
        admitted(want, m),
    ensures
        field_wf(after_create(cells, size, m), size),
        seen(after_create(cells, size, m), size, p, want).contains(m),
{
    let c = cell_of(m.place(), size);
    let grown = bucket_of(cells, c).push(m);
    let after = after_create(cells, size, m);
    assert(grown[grown.len() - 1] == m);
    assert(after[c].contains(m));
    assert forall|x: (int, int), i: int|
        after.contains_key(x) && 0 <= i < after[x].len() implies cell_of(
        (#[trigger] after[x][i]).place(),
        size,
    ) == x by {
        if x == c {
            if i < grown.len() - 1 {
                assert(grown[i] == cells[c][i]);
            }
        } else {
            assert(after[x][i] == cells[x][i]);
        }
    }
    assert forall|x: (int, int)| after.contains_key(x) implies (#[trigger] after[x]).len() > 0 by {
        if x != c {
            assert(after[x] == cells[x]);
        }
    }
    lemma_seen(after, size, p, want, m);
}

/// A field stays well formed while its markers fade.
pub proof fn lemma_later_wf(cells: MarkerCells, size: int, d: int)
    requires
        field_wf(cells, size),
    ensures
        field_wf(later(cells, d), size),
{
    let after = later(cells, d);
    assert forall|c: (int, int), i: int|
        after.contains_key(c) && 0 <= i < after[c].len() implies cell_of(
        (#[trigger] after[c][i]).place(),
        size,
    ) == c by {
        lemma_decayed_from(cells[c], d, i);
        let j = choose|j: int|
            0 <= j < cells[c].len() && (#[trigger] cells[c][j]).remaining() - d > 0 && decayed(
                cells[c],
                d,
            )[i] == cells[c][j].aged(d);
        assert(cells[c][j].place() == after[c][i].place());
    }
}

/// After a time `d` greater than zero, a query returns only markers with
/// life left, each a marker that the field held before, its life less by
/// exactly `d`: a marker whose life has run out is not seen again.
pub proof fn lemma_faded(
    cells: MarkerCells,
    size: int,
    d: int,
    p: Vec2,
    want: Option<MarkerKind>,
    m: Marker,
)
    requires
        field_wf(cells, size),
        d > 0,
        seen(later(cells, d), size, p, want).contains(m),
    ensures
        m.remaining() > 0,
        exists|before: Marker| #[trigger]
            stored(cells, before) && m == before.aged(d) && m.remaining() == before.remaining() - d,
{
    let after = later(cells, d);
    lemma_later_wf(cells, size, d);
    lemma_seen(after, size, p, want, m);
    let c = choose|c: (int, int)| after.contains_key(c) && #[trigger] after[c].contains(m);
    let i = choose|i: int| 0 <= i < after[c].len() && after[c][i] == m;
    lemma_decay(cells[c], d);
    assert(survivor_of(decayed(cells[c], d)[i], cells[c], d));
    let j = choose|j: int|
        0 <= j < cells[c].len() && (#[trigger] cells[c][j]).remaining() - d > 0 && m == cells[c][j].aged(
            d,
        );
    assert(cells[c].contains(cells[c][j]));
    assert(stored(cells, cells[c][j]));
}

/// A cell that holds more Home markers than the cap keeps its count: a
/// further Home marker for it leaves every bucket as it was.
pub proof fn lemma_home_cap(cells: MarkerCells, size: int, m: Marker)
    requires
        m is Home,
        full_at(cells, size, m.place()),
    ensures
        after_create(cells, size, m) == cells,
{
}

/// Whether `x` is a marker of `s` that outlived the time `d`, `d` older.
pub open spec fn survivor_of(x: Marker, s: Seq<Marker>, d: int) -> bool {
    exists|j: int| 0 <= j < s.len() && (#[trigger] s[j]).remaining() - d > 0 && x == s[j].aged(d)
}

/// Every marker left after a time `d` is a marker of before that outlived
/// it, `d` older.
pub proof fn lemma_decayed_from(s: Seq<Marker>, d: int, i: int)
    requires
        0 <= i < decayed(s, d).len(),
    ensures
        survivor_of(decayed(s, d)[i], s, d),
{
    broadcast use vstd::seq_lib::group_filter_ensures;

    let kept = s.filter(outlives(d));
    assert(outlives(d)(kept[i]));
    assert(kept.contains(kept[i]));
    s.lemma_filter_contains_rev(outlives(d), kept[i]);
    let j = choose|j: int| 0 <= j < s.len() && s[j] == kept[i];
    assert(s[j].remaining() - d > 0 && decayed(s, d)[i] == s[j].aged(d));
}

/// After a time `d` greater than zero, what is left of a bucket holds
/// exactly the markers whose life was longer than `d`, each with `d` less
/// life than before, and none whose life has run out.
pub proof fn lemma_decay(s: Seq<Marker>, d: int)
    requires
        d > 0,
    ensures
        forall|j: int|
            0 <= j < s.len() && (#[trigger] s[j]).remaining() > d ==> decayed(s, d).contains(
                s[j].aged(d),
            ) && s[j].aged(d).remaining() == s[j].remaining() - d,
        forall|i: int|
            0 <= i < decayed(s, d).len() ==> (#[trigger] decayed(s, d)[i]).remaining() > 0,
        forall|i: int| 0 <= i < decayed(s, d).len() ==> survivor_of(#[trigger] decayed(s, d)[i], s, d),
{
    broadcast use vstd::seq_lib::group_filter_ensures;

    let kept = s.filter(outlives(d));
    assert forall|j: int| 0 <= j < s.len() && (#[trigger] s[j]).remaining() > d implies decayed(
        s,
        d,
    ).contains(s[j].aged(d)) && s[j].aged(d).remaining() == s[j].remaining() - d by {
        assert(outlives(d)(s[j]));
        assert(kept.contains(s[j]));
        let i = choose|i: int| 0 <= i < kept.len() && kept[i] == s[j];
        assert(decayed(s, d)[i] == s[j].aged(d));
    }
    assert forall|i: int| 0 <= i < decayed(s, d).len() implies (#[trigger] decayed(
        s,
        d,
    )[i]).remaining() > 0 && survivor_of(decayed(s, d)[i], s, d) by {
        lemma_decayed_from(s, d, i);
    }
}

} // verus!

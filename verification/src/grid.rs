//! A uniform grid of buckets over the plane.
//!
//! A position falls into the cell whose coordinates are its own, divided by
//! the cell size and rounded down. Buckets come into being with their first
//! entry. A local query reads the three by three block of cells round a
//! centre cell, both ends included.

use vstd::prelude::*;
use vstd::std_specs::iter::IteratorSpec;
use vstd::arithmetic::div_mod::lemma_fundamental_div_mod;
use std::collections::HashMap;
use crate::vector::{floor_div, Vec2};

verus! {

/// The cell that holds the position `p` in a grid of cells `size` wide.
pub open spec fn cell_of(p: Vec2, size: int) -> (int, int) {
    (p.x as int / size, p.y as int / size)
}

/// Whether two cells touch, or are the same.
pub open spec fn adjacent(a: (int, int), b: (int, int)) -> bool {
    -1 <= a.0 - b.0 <= 1 && -1 <= a.1 - b.1 <= 1
}

/// The `i`-th cell of the block round `k`, counted column by column from the
/// corner with the smallest coordinates.
pub open spec fn neighbour(k: (int, int), i: int) -> (int, int) {
    (k.0 - 1 + i / 3, k.1 - 1 + i % 3)
}

/// A cell with executable coordinates, as a cell.
pub open spec fn as_cell(k: (i32, i32)) -> (int, int) {
    (k.0 as int, k.1 as int)
}

/// Whether the coordinates of `c` fit `i32`.
pub open spec fn in_range(c: (int, int)) -> bool {
    i32::MIN <= c.0 <= i32::MAX && i32::MIN <= c.1 <= i32::MAX
}

/// The number under which the bucket of cell `c` is kept: one to one between
/// the cells in range and the 64-bit naturals.
pub closed spec fn code(c: (int, int)) -> int {
    (c.0 + 0x8000_0000) * 0x1_0000_0000 + (c.1 + 0x8000_0000)
}

fn encode(k: (i32, i32)) -> (c: u64)
    ensures
        c == code(as_cell(k)),
{
    let hi: u64 = (k.0 as i64 + 0x8000_0000) as u64;
    let lo: u64 = (k.1 as i64 + 0x8000_0000) as u64;
    hi * 0x1_0000_0000 + lo
}

fn decode(c: u64) -> (k: (i32, i32))
    ensures
        code(as_cell(k)) == c,
{
    let hi: u64 = c / 0x1_0000_0000;
    let lo: u64 = c % 0x1_0000_0000;
    ((hi as i64 - 0x8000_0000) as i32, (lo as i64 - 0x8000_0000) as i32)
}

proof fn lemma_code_one_to_one(a: (int, int), b: (int, int))
    requires
        in_range(a),
        in_range(b),
        code(a) == code(b),
    ensures
        a == b,
{
}

/// The entries of cell `c` in `cells`, none where it has no bucket.
pub open spec fn bucket_of<T>(cells: Map<(int, int), Seq<T>>, c: (int, int)) -> Seq<T> {
    if cells.contains_key(c) {
        cells[c]
    } else {
        Seq::empty()
    }
}

/// The entries of the first `n` cells of the block round `k`.
pub open spec fn around_upto<T>(cells: Map<(int, int), Seq<T>>, k: (int, int), n: int) -> Seq<T>
    decreases n,
{
    if n <= 0 {
        Seq::empty()
    } else {
        around_upto(cells, k, n - 1) + bucket_of(cells, neighbour(k, n - 1))
    }
}

/// The entries of the three by three block of cells round `k`, cell after
/// cell.
pub open spec fn around<T>(cells: Map<(int, int), Seq<T>>, k: (int, int)) -> Seq<T> {
    around_upto(cells, k, 9)
}

/// What the first `n` cells of a block hold is what their buckets hold.
pub proof fn lemma_around_upto_contains<T>(cells: Map<(int, int), Seq<T>>, k: (int, int), n: int, x: T)
    requires
        0 <= n <= 9,
    ensures
        around_upto(cells, k, n).contains(x) <==> exists|i: int|
            0 <= i < n && #[trigger] bucket_of(cells, neighbour(k, i)).contains(x),
    decreases n,
{
    if n > 0 {
        lemma_around_upto_contains(cells, k, n - 1, x);
        let head = around_upto(cells, k, n - 1);
        let tail = bucket_of(cells, neighbour(k, n - 1));
        vstd::seq_lib::lemma_seq_concat_contains_all_elements(head, tail, x);
        if around_upto(cells, k, n).contains(x) {
            if head.contains(x) {
                let i = choose|i: int|
                    0 <= i < n - 1 && #[trigger] bucket_of(cells, neighbour(k, i)).contains(x);
                assert(0 <= i < n && bucket_of(cells, neighbour(k, i)).contains(x));
            } else {
                assert(bucket_of(cells, neighbour(k, n - 1)).contains(x));
            }
        }
        if exists|i: int| 0 <= i < n && #[trigger] bucket_of(cells, neighbour(k, i)).contains(x) {
            let i = choose|i: int| 0 <= i < n && #[trigger] bucket_of(cells, neighbour(k, i)).contains(x);
            if i < n - 1 {
                assert(head.contains(x));
            } else {
                assert(tail.contains(x));
            }
        }
    } else {
        assert(around_upto(cells, k, n) =~= Seq::<T>::empty());
    }
}

/// A local query returns what the buckets of the centre cell and of the
/// eight cells next to it hold, and nothing that only a bucket further away
/// holds.
pub proof fn lemma_around_contains<T>(cells: Map<(int, int), Seq<T>>, k: (int, int), x: T)
    ensures
        around(cells, k).contains(x) <==> exists|c: (int, int)|
            adjacent(c, k) && #[trigger] bucket_of(cells, c).contains(x),
{
    lemma_around_upto_contains(cells, k, 9, x);
    if around(cells, k).contains(x) {
        let i = choose|i: int| 0 <= i < 9 && #[trigger] bucket_of(cells, neighbour(k, i)).contains(x);
        assert(adjacent(neighbour(k, i), k));
    }
    if exists|c: (int, int)| adjacent(c, k) && #[trigger] bucket_of(cells, c).contains(x) {
        let c = choose|c: (int, int)| adjacent(c, k) && #[trigger] bucket_of(cells, c).contains(x);
        let i = (c.0 - k.0 + 1) * 3 + (c.1 - k.1 + 1);
        assert(neighbour(k, i) == c);
        assert(0 <= i < 9 && bucket_of(cells, neighbour(k, i)).contains(x));
    }
}

/// An entry added to the bucket of cell `k` is returned by the local query
/// round every cell that is `k` or touches it.
pub proof fn lemma_pushed_is_around<T>(cells: Map<(int, int), Seq<T>>, k: (int, int), item: T, q: (int, int))
    requires
        adjacent(k, q),
    ensures
        around(cells.insert(k, bucket_of(cells, k).push(item)), q).contains(item),
{
    let grown = bucket_of(cells, k).push(item);
    let after = cells.insert(k, grown);
    assert(grown[grown.len() - 1] == item);
    assert(bucket_of(after, k).contains(item));
    lemma_around_contains(after, q, item);
}

/// Two points no further apart along either axis than a cell is wide lie
/// in one cell or in two cells next to each other.
pub proof fn lemma_close_cells(a: Vec2, b: Vec2, size: int)
    requires
        size > 0,
        -size <= a.x - b.x <= size,
        -size <= a.y - b.y <= size,
    ensures
        adjacent(cell_of(a, size), cell_of(b, size)),
{
    lemma_close_quotients(a.x as int, b.x as int, size);
    lemma_close_quotients(a.y as int, b.y as int, size);
}

/// Two integers no further apart than `size` have quotients by `size` no
/// further apart than one.
proof fn lemma_close_quotients(a: int, b: int, size: int)
    requires
        size > 0,
        -size <= a - b <= size,
    ensures
        -1 <= a / size - b / size <= 1,
{
    vstd::arithmetic::div_mod::lemma_fundamental_div_mod(a, size);
    vstd::arithmetic::div_mod::lemma_fundamental_div_mod(b, size);
    let qa = a / size;
    let qb = b / size;
    assert(-1 <= qa - qb <= 1) by (nonlinear_arith)
        requires
            a == size * qa + a % size,
            b == size * qb + b % size,
            0 <= a % size < size,
            0 <= b % size < size,
            size > 0,
            -size <= a - b <= size,
    {
        if qa - qb >= 2 {
            assert(size * (qa - qb) >= size * 2);
        }
        if qa - qb <= -2 {
            assert(size * (qa - qb) <= size * (-2));
        }
    }
}

/// Buckets of any kind by their cells.
pub struct Cells<B> {
    map: HashMap<u64, B>,
}

impl<B> View for Cells<B> {
    type V = Map<(int, int), B>;

    /// The buckets by their cells.
    closed spec fn view(&self) -> Map<(int, int), B> {
        Map::new(
            |c: (int, int)| in_range(c) && self.map@.contains_key(code(c) as u64),
            |c: (int, int)| self.map@[code(c) as u64],
        )
    }
}

impl<B> Cells<B> {
    /// Only cells whose coordinates fit `i32` have buckets.
    pub proof fn lemma_in_range(&self, c: (int, int))
        requires
            self@.contains_key(c),
        ensures
            in_range(c),
    {
    }

    pub fn new() -> (s: Self)
        ensures
            s@ == Map::<(int, int), B>::empty(),
    {
        let s = Cells { map: HashMap::new() };
        assert(s@ =~= Map::<(int, int), B>::empty());
        s
    }

    /// The bucket of cell `k`, if it has one.
    pub fn get(&self, k: (i32, i32)) -> (r: Option<&B>)
        ensures
            match r {
                Some(b) => self@.contains_key(as_cell(k)) && *b == self@[as_cell(k)],
                None => !self@.contains_key(as_cell(k)),
            },
    {
        broadcast use vstd::std_specs::hash::group_hash_axioms;

        let c: u64 = encode(k);
        self.map.get(&c)
    }

    /// Makes `bucket` the bucket of cell `k`.
    pub fn put(&mut self, k: (i32, i32), bucket: B)
        ensures
            final(self)@ == old(self)@.insert(as_cell(k), bucket),
    {
        broadcast use vstd::std_specs::hash::group_hash_axioms;

        let c: u64 = encode(k);
        self.map.insert(c, bucket);
        proof {
            let after = self@;
            let wanted = old(self)@.insert(as_cell(k), bucket);
            assert forall|x: (int, int)| after.contains_key(x) <==> wanted.contains_key(x) by {
                if in_range(x) && code(x) == c {
                    lemma_code_one_to_one(x, as_cell(k));
                }
            }
            assert forall|x: (int, int)| after.contains_key(x) implies after[x] == wanted[x] by {
                if code(x) == c {
                    lemma_code_one_to_one(x, as_cell(k));
                }
            }
            assert(after =~= wanted);
        }
    }

    /// Takes the bucket of cell `k` out, if it has one.
    pub fn take(&mut self, k: (i32, i32)) -> (r: Option<B>)
        ensures
            final(self)@ == old(self)@.remove(as_cell(k)),
            match r {
                Some(b) => old(self)@.contains_key(as_cell(k)) && b == old(self)@[as_cell(k)],
                None => !old(self)@.contains_key(as_cell(k)),
            },
    {
        broadcast use vstd::std_specs::hash::group_hash_axioms;

        let c: u64 = encode(k);
        let r = self.map.remove(&c);
        proof {
            let after = self@;
            let wanted = old(self)@.remove(as_cell(k));
            assert forall|x: (int, int)| after.contains_key(x) <==> wanted.contains_key(x) by {
                if in_range(x) && code(x) == c {
                    lemma_code_one_to_one(x, as_cell(k));
                }
            }
            assert(after =~= wanted);
        }
        r
    }

    /// The cells that have a bucket, each once, in no particular order.
    pub fn keys(&self) -> (out: Vec<(i32, i32)>)
        ensures
            out@.no_duplicates(),
            forall|i: int| 0 <= i < out@.len() ==> self@.contains_key(#[trigger] as_cell(out@[i])),
            forall|c: (int, int)|
                self@.contains_key(c) ==> exists|i: int|
                    0 <= i < out@.len() && #[trigger] as_cell(out@[i]) == c,
    {
        broadcast use vstd::std_specs::hash::group_hash_axioms;

        let mut out: Vec<(i32, i32)> = Vec::new();
        let keys = self.map.keys();
        let ghost all = keys.remaining();
        assert(all.unref().to_set() == self.map@.dom());
        assert(all.no_duplicates());
        for c in it: keys
            invariant
                it.seq() == all,
                out@.len() == it.index(),
                forall|i: int| 0 <= i < out@.len() ==> code(as_cell(#[trigger] out@[i])) == *all[i],
        {
            out.push(decode(*c));
        }
        proof {
            assert forall|i: int, j: int|
                0 <= i < out@.len() && 0 <= j < out@.len() && i != j implies out@[i] != out@[j] by {
                assert(*all[i] != *all[j]);
            }
            assert forall|i: int| 0 <= i < out@.len() implies self@.contains_key(
                #[trigger] as_cell(out@[i]),
            ) by {
                assert(all.unref()[i] == *all[i]);
                assert(all.unref().to_set().contains(all.unref()[i]));
            }
            assert forall|c: (int, int)| self@.contains_key(c) implies exists|i: int|
                0 <= i < out@.len() && #[trigger] as_cell(out@[i]) == c by {
                let n = code(c) as u64;
                assert(all.unref().to_set().contains(n));
                let i = choose|i: int| 0 <= i < all.unref().len() && all.unref()[i] == n;
                assert(all.unref()[i] == *all[i]);
                lemma_code_one_to_one(as_cell(out@[i]), c);
            }
        }
        out
    }
}

/// The cell that holds the position `p` in a grid of cells `size` wide.
pub fn cell_key(p: &Vec2, size: i32) -> (k: (i32, i32))
    requires
        size > 0,
    ensures
        as_cell(k) == cell_of(*p, size as int),
{
    let kx: i64 = floor_div(p.x as i64, size as i64);
    let ky: i64 = floor_div(p.y as i64, size as i64);
    proof {
        lemma_quotient_no_larger(p.x as int, size as int);
        lemma_quotient_no_larger(p.y as int, size as int);
    }
    (kx as i32, ky as i32)
}

/// A grid whose buckets are rows of entries.
pub struct Grid<T> {
    cell_size: i32,
    cells: Cells<Vec<T>>,
}

impl<T> View for Grid<T> {
    type V = Map<(int, int), Seq<T>>;

    /// The entries of the buckets by their cells.
    closed spec fn view(&self) -> Map<(int, int), Seq<T>> {
        Map::new(|c: (int, int)| self.cells@.contains_key(c), |c: (int, int)| self.cells@[c]@)
    }
}

impl<T: Copy> Grid<T> {
    /// The width of a cell.
    pub closed spec fn cell_size(&self) -> int {
        self.cell_size as int
    }

    /// A grid is well formed when its cells have a positive width.
    pub open spec fn wf(&self) -> bool {
        self.cell_size() > 0
    }

    pub fn new(cell_size: i32) -> (g: Self)
        requires
            cell_size > 0,
        ensures
            g.wf(),
            g.cell_size() == cell_size,
            g@ == Map::<(int, int), Seq<T>>::empty(),
    {
        let g = Grid { cell_size, cells: Cells::new() };
        assert(g@ =~= Map::<(int, int), Seq<T>>::empty());
        g
    }

    /// The width of a cell.
    pub fn size(&self) -> (s: i32)
        ensures
            s == self.cell_size(),
    {
        self.cell_size
    }

    /// The cell that holds the position `p`.
    pub fn key(&self, p: &Vec2) -> (k: (i32, i32))
        requires
            self.wf(),
        ensures
            as_cell(k) == cell_of(*p, self.cell_size()),
    {
        cell_key(p, self.cell_size)
    }

    /// The bucket of cell `k`, if it has one.
    pub fn cell(&self, k: (i32, i32)) -> (r: Option<&Vec<T>>)
        ensures
            match r {
                Some(v) => self@.contains_key(as_cell(k)) && v@ == self@[as_cell(k)],
                None => !self@.contains_key(as_cell(k)),
            },
    {
        self.cells.get(k)
    }

    /// Makes `items` the bucket of cell `k`.
    pub fn put(&mut self, k: (i32, i32), items: Vec<T>)
        ensures
            final(self)@ == old(self)@.insert(as_cell(k), items@),
            final(self).cell_size() == old(self).cell_size(),
    {
        self.cells.put(k, items);
        assert(self@ =~= old(self)@.insert(as_cell(k), items@));
    }

    /// Removes the bucket of cell `k`.
    pub fn remove(&mut self, k: (i32, i32))
        ensures
            final(self)@ == old(self)@.remove(as_cell(k)),
            final(self).cell_size() == old(self).cell_size(),
    {
        let _ = self.cells.take(k);
        assert(self@ =~= old(self)@.remove(as_cell(k)));
    }

    /// Adds `item` at the end of the bucket of cell `k`, which comes into
    /// being if it was not there.
    pub fn push(&mut self, k: (i32, i32), item: T)
        ensures
            final(self)@ == old(self)@.insert(as_cell(k), bucket_of(old(self)@, as_cell(k)).push(item)),
            final(self).cell_size() == old(self).cell_size(),
    {
        let mut items: Vec<T> = match self.cells.take(k) {
            Some(v) => v,
            None => Vec::new(),
        };
        assert(items@ == bucket_of(old(self)@, as_cell(k)));
        items.push(item);
        self.cells.put(k, items);
        assert(self@ =~= old(self)@.insert(
            as_cell(k),
            bucket_of(old(self)@, as_cell(k)).push(item),
        ));
    }

    /// The cells that have a bucket, each once, in no particular order.
    pub fn cell_list(&self) -> (out: Vec<(i32, i32)>)
        ensures
            out@.no_duplicates(),
            forall|i: int| 0 <= i < out@.len() ==> self@.contains_key(#[trigger] as_cell(out@[i])),
            forall|c: (int, int)|
                self@.contains_key(c) ==> exists|i: int|
                    0 <= i < out@.len() && #[trigger] as_cell(out@[i]) == c,
    {
        self.cells.keys()
    }

    /// The entries of the three by three block of cells round `k`.
    pub fn local(&self, k: (i32, i32)) -> (out: Vec<T>)
        ensures
            out@ == around(self@, as_cell(k)),
    {
        let mut out: Vec<T> = Vec::new();
        let mut i: i64 = 0;
        while i < 9
            invariant
                0 <= i <= 9,
                out@ == around_upto(self@, as_cell(k), i as int),
            decreases 9 - i,
        {
            let cx: i64 = k.0 as i64 - 1 + i / 3;
            let cy: i64 = k.1 as i64 - 1 + i % 3;
            let ghost c = neighbour(as_cell(k), i as int);
            assert(c == (cx as int, cy as int));
            if -2147483648 <= cx && cx <= 2147483647 && -2147483648 <= cy && cy <= 2147483647 {
                match self.cell((cx as i32, cy as i32)) {
                    Some(v) => {
                        let mut j: usize = 0;
                        while j < v.len()
                            invariant
                                0 <= j <= v.len(),
                                out@ == around_upto(self@, as_cell(k), i as int) + v@.take(j as int),
                            decreases v.len() - j,
                        {
                            out.push(v[j]);
                            assert(v@.take(j + 1) == v@.take(j as int).push(v@[j as int]));
                            j += 1;
                        }
                        assert(v@.take(v.len() as int) == v@);
                    },
                    None => {
                        assert(out@ + Seq::<T>::empty() == out@);
                    },
                }
            } else {
                proof {
                    assert(!in_range(c));
                    if self.cells@.contains_key(c) {
                        self.cells.lemma_in_range(c);
                    }
                }
                assert(out@ + Seq::<T>::empty() == out@);
            }
            i += 1;
        }
        out
    }
}

/// A quotient by a positive divisor is no further from zero than the
/// dividend.
proof fn lemma_quotient_no_larger(x: int, d: int)
    requires
        d > 0,
    ensures
        x >= 0 ==> 0 <= x / d <= x,
        x < 0 ==> x <= x / d < 0,
{
    lemma_fundamental_div_mod(x, d);
    let q = x / d;
    let r = x % d;
    assert((x >= 0 ==> 0 <= q <= x) && (x < 0 ==> x <= q < 0)) by (nonlinear_arith)
        requires
            x == d * q + r,
            0 <= r < d,
            d > 0,
    {
        if x >= 0 {
            if q < 0 {
                assert(d * q <= -d);
            }
            if q > x {
                assert(d * q >= q);
            }
        } else {
            if q >= 0 {
                assert(d * q >= 0);
            }
            if q < x {
                assert(d * q <= q);
            }
        }
    }
}

} // verus!

//! The set of live objects.
//!
//! Objects are kept by their numbers; a number is given out once and never
//! again. Destroying is deferred: an object is first scheduled and leaves the
//! set when the tick's pass over the objects is over.

use vstd::prelude::*;
use std::collections::hash_map::Entry;
use std::collections::HashMap;
use crate::gobj::{Chance, Gobj, Input, Thing};
use crate::markers::{refuses, Marker};
use crate::world::{Land, World};

verus! {

pub type GameObjectID = usize;

pub struct ObjectSet<T> {
    /// The live objects by their numbers.
    pub objects: HashMap<GameObjectID, T>,
    /// The numbers of the objects scheduled to be destroyed.
    pub to_be_destroyed: Vec<GameObjectID>,
    /// The number that the next object gets.
    pub next_id: GameObjectID,
}

impl<T> View for ObjectSet<T> {
    type V = Map<int, T>;

    /// The live objects by their numbers.
    open spec fn view(&self) -> Map<int, T> {
        Map::new(
            |id: int| 0 <= id <= usize::MAX && self.objects@.contains_key(id as usize),
            |id: int| self.objects@[id as usize],
        )
    }
}

/// `slots` with the slots emptied whose numbers are among `doomed`.
pub open spec fn swept<T>(slots: Seq<Option<T>>, doomed: Seq<GameObjectID>) -> Seq<Option<T>> {
    Seq::new(
        slots.len(),
        |i: int|
            if doomed.contains(i as usize) {
                None
            } else {
                slots[i]
            },
    )
}

/// `slots` with `obj` in a new slot behind them, if a number is left for
/// it.
pub open spec fn taken_in<T>(slots: Seq<Option<T>>, obj: T) -> Seq<Option<T>> {
    if slots.len() < usize::MAX {
        slots.push(Some(obj))
    } else {
        slots
    }
}

impl<T> ObjectSet<T> {
    /// The set is well formed when every object has a number that was given
    /// out.
    pub open spec fn wf(&self) -> bool {
        forall|id: usize| #[trigger] self.objects@.contains_key(id) ==> id < self.next_id
    }

    /// The numbers given out so far, each with its object, or with nothing
    /// if the object is gone.
    pub open spec fn slots(&self) -> Seq<Option<T>> {
        Seq::new(
            self.next_id as nat,
            |i: int|
                if self.objects@.contains_key(i as usize) {
                    Some(self.objects@[i as usize])
                } else {
                    None
                },
        )
    }

    pub fn new() -> (s: Self)
        ensures
            s.wf(),
            s@ == Map::<int, T>::empty(),
            s.objects@ == Map::<usize, T>::empty(),
            s.next_id == 0,
            s.slots().len() == 0,
            s.to_be_destroyed@.len() == 0,
    {
        let s = ObjectSet { objects: HashMap::new(), to_be_destroyed: Vec::new(), next_id: 0 };
        assert(s@ =~= Map::<int, T>::empty());
        s
    }

    /// Adds `obj` under the next number, and returns the number.
    pub fn create(&mut self, obj: T) -> (id: GameObjectID)
        requires
            old(self).wf(),
            old(self).next_id < usize::MAX,
        ensures
            final(self).wf(),
            id == old(self).next_id,
            final(self).next_id == old(self).next_id + 1,
            final(self).objects@ == old(self).objects@.insert(id, obj),
            final(self).slots() == old(self).slots().push(Some(obj)),
            final(self)@ == old(self)@.insert(id as int, obj),
            final(self).to_be_destroyed == old(self).to_be_destroyed,
    {
        broadcast use vstd::std_specs::hash::group_hash_axioms;

        let id: usize = self.next_id;
        self.objects.insert(id, obj);
        self.next_id = id + 1;
        assert(self@ =~= old(self)@.insert(id as int, obj));
        assert(self.slots() =~= old(self).slots().push(Some(obj)));
        id
    }

    /// Adds `obj` under the next number, if a number is left, and drops it
    /// if none is.
    pub fn take_in(&mut self, obj: T)
        requires
            old(self).wf(),
        ensures
            final(self).wf(),
            final(self).slots() == taken_in(old(self).slots(), obj),
            final(self).to_be_destroyed == old(self).to_be_destroyed,
    {
        if self.next_id < usize::MAX {
            self.create(obj);
        }
    }

    /// The object with the number `id`.
    pub fn get_obj(&self, id: GameObjectID) -> (obj: &T)
        requires
            self@.contains_key(id as int),
        ensures
            *obj == self@[id as int],
    {
        broadcast use vstd::std_specs::hash::group_hash_axioms;

        match self.objects.get(&id) {
            Some(obj) => obj,
            None => vstd::pervasive::unreached(),
        }
    }

    /// The object with the number `id`, to be changed in its place.
    pub fn get_obj_mut(&mut self, id: GameObjectID) -> (obj: &mut T)
        requires
            old(self)@.contains_key(id as int),
        ensures
            *obj == old(self)@[id as int],
            final(self).objects@ == old(self).objects@.insert(id, *final(obj)),
            final(self).next_id == old(self).next_id,
            final(self).to_be_destroyed == old(self).to_be_destroyed,
    {
        broadcast use vstd::std_specs::hash::group_hash_axioms;

        match self.objects.entry(id) {
            Entry::Occupied(e) => e.into_mut(),
            Entry::Vacant(_) => vstd::pervasive::unreached(),
        }
    }

    /// Puts `obj` in the place of the object with the number `id`.
    pub fn replace(&mut self, id: GameObjectID, obj: T)
        requires
            old(self).wf(),
            old(self)@.contains_key(id as int),
        ensures
            final(self).wf(),
            final(self).next_id == old(self).next_id,
            final(self).objects@ == old(self).objects@.insert(id, obj),
            final(self).slots() == old(self).slots().update(id as int, Some(obj)),
            final(self)@ == old(self)@.insert(id as int, obj),
            final(self).to_be_destroyed == old(self).to_be_destroyed,
    {
        broadcast use vstd::std_specs::hash::group_hash_axioms;

        self.objects.insert(id, obj);
        assert(self@ =~= old(self)@.insert(id as int, obj));
        assert(self.slots() =~= old(self).slots().update(id as int, Some(obj)));
    }

    /// Schedules the object with the number `id` to be destroyed.
    pub fn schedule_destroy(&mut self, id: GameObjectID)
        ensures
            final(self).to_be_destroyed@ == old(self).to_be_destroyed@.push(id),
            final(self).objects == old(self).objects,
            final(self).next_id == old(self).next_id,
    {
        self.to_be_destroyed.push(id);
    }

    /// Destroys the objects that were scheduled: they leave the set, their
    /// numbers stay taken.
    pub fn destroy_scheduled(&mut self)
        requires
            old(self).wf(),
        ensures
            final(self).wf(),
            final(self).next_id == old(self).next_id,
            final(self).slots() == swept(old(self).slots(), old(self).to_be_destroyed@),
            final(self).to_be_destroyed@.len() == 0,
    {
        broadcast use vstd::std_specs::hash::group_hash_axioms;

        let mut n: usize = 0;
        assert(self.slots() =~= swept(old(self).slots(), old(self).to_be_destroyed@.take(0)));
        while n < self.to_be_destroyed.len()
            invariant
                0 <= n <= self.to_be_destroyed.len(),
                self.wf(),
                self.next_id == old(self).next_id,
                self.to_be_destroyed == old(self).to_be_destroyed,
                self.slots() == swept(old(self).slots(), old(self).to_be_destroyed@.take(n as int)),
            decreases self.to_be_destroyed.len() - n,
        {
            let id: usize = self.to_be_destroyed[n];
            let ghost done = old(self).to_be_destroyed@.take(n as int);
            let ghost more = old(self).to_be_destroyed@.take(n + 1);
            let ghost before = self.slots();
            proof {
                assert(more == done.push(id));
                assert forall|x: usize| more.contains(x) <==> done.contains(x) || x == id by {
                    if more.contains(x) {
                        let t = choose|t: int| 0 <= t < more.len() && more[t] == x;
                        if t < n {
                            assert(done[t] == x);
                        }
                    }
                    if done.contains(x) {
                        let t = choose|t: int| 0 <= t < done.len() && done[t] == x;
                        assert(more[t] == x);
                    }
                    if x == id {
                        assert(more[n as int] == x);
                    }
                }
            }
            self.objects.remove(&id);
            proof {
                assert forall|i: int| 0 <= i < before.len() implies #[trigger] self.slots()[i] == swept(
                    old(self).slots(),
                    more,
                )[i] by {
                    assert(before[i] == swept(old(self).slots(), done)[i]);
                }
                assert(self.slots() =~= swept(old(self).slots(), more));
            }
            n += 1;
        }
        assert(old(self).to_be_destroyed@.take(n as int) == old(self).to_be_destroyed@);
        self.to_be_destroyed.clear();
    }
}

/// The objects of `slots` as the rules read them.
pub open spec fn things_of(slots: Seq<Option<Gobj>>) -> Seq<Option<Thing>> {
    Seq::new(
        slots.len(),
        |i: int|
            match slots[i] {
                Some(g) => Some(g@),
                None => None,
            },
    )
}

/// The land, the objects and the markers announced after the first `n`
/// objects had their tick, one after the other in the order of their
/// numbers, each in the land that the one before it left.
pub struct Pass {
    pub things: Seq<Option<Thing>>,
    pub land: Land,
    /// The markers that were left and taken by the field, in their order.
    pub announced: Seq<Marker>,
}

/// The pass over the first `n` of `things`.
pub open spec fn pass(
    things: Seq<Option<Thing>>,
    land: Land,
    d: int,
    input: Input,
    chances: Seq<Chance>,
    n: int,
) -> Pass
    decreases n,
{
    if n <= 0 {
        Pass { things, land, announced: Seq::empty() }
    } else {
        let before = pass(things, land, d, input, chances, n - 1);
        match before.things[n - 1] {
            Some(x) => Pass {
                things: before.things.update(
                    n - 1,
                    Some(x.stepped(before.land, d, input, chances[n - 1])),
                ),
                land: x.land_after(before.land, d, input, chances[n - 1]),
                announced: match x.dropped(before.land, d, chances[n - 1]) {
                    Some(m) => if refuses(before.land.markers, before.land.marker_size, m) {
                        before.announced
                    } else {
                        before.announced.push(m)
                    },
                    None => before.announced,
                },
            },
            None => before,
        }
    }
}

/// The numbers of the objects among the first `n` of `things` that do not
/// live on after a tick of the length `d`.
pub open spec fn casualties(things: Seq<Option<Thing>>, d: int, n: int) -> Seq<GameObjectID>
    decreases n,
{
    if n <= 0 {
        Seq::empty()
    } else {
        match things[n - 1] {
            Some(x) => if x.survives(d) {
                casualties(things, d, n - 1)
            } else {
                casualties(things, d, n - 1).push((n - 1) as usize)
            },
            None => casualties(things, d, n - 1),
        }
    }
}

/// Whether every object of `slots` is well formed and, if obstacles stop
/// it, stands in a free place of `land`.
pub open spec fn all_sound(slots: Seq<Option<Gobj>>, land: Land) -> bool {
    forall|i: int|
        0 <= i < slots.len() ==> (#[trigger] slots[i] matches Some(g) ==> g.wf() && g@.placed_well(land))
}

/// Whether the spawn queue `after` is the queue `before` with a burst behind
/// it for each of the markers `announced`, in their order.
pub open spec fn queue_announces(before: Seq<Gobj>, after: Seq<Gobj>, announced: Seq<Marker>) -> bool {
    &&& after.len() == before.len() + announced.len()
    &&& after.subrange(0, before.len() as int) == before
    &&& forall|j: int|
        0 <= j < announced.len() ==> (#[trigger] after[before.len() + j]).wf() && after[before.len()
            + j]@.announces(announced[j])
}

/// A pass keeps the number of slots, leaves the slots alone that it has not
/// come to, and keeps the collision field and the cell sizes of the land.
pub proof fn lemma_pass_frame(
    things: Seq<Option<Thing>>,
    land: Land,
    d: int,
    input: Input,
    chances: Seq<Chance>,
    n: int,
)
    requires
        0 <= n <= things.len(),
    ensures
        pass(things, land, d, input, chances, n).things.len() == things.len(),
        forall|j: int|
            n <= j < things.len() ==> #[trigger] pass(things, land, d, input, chances, n).things[j]
                == things[j],
        pass(things, land, d, input, chances, n).land.collision == land.collision,
        pass(things, land, d, input, chances, n).land.map_tl == land.map_tl,
        pass(things, land, d, input, chances, n).land.marker_size == land.marker_size,
        pass(things, land, d, input, chances, n).land.food_size == land.food_size,
        pass(things, land, d, input, chances, n).land.food_issued == land.food_issued,
    decreases n,
{
    if n > 0 {
        lemma_pass_frame(things, land, d, input, chances, n - 1);
        let before = pass(things, land, d, input, chances, n - 1);
        if before.things[n - 1] is Some {
            Gobj::lemma_tick_frame(before.things[n - 1]->0, before.land, d, input, chances[n - 1]);
        }
    }
}

impl ObjectSet<Gobj> {
    /// The objects as the rules read them, slot by slot.
    pub open spec fn things(&self) -> Seq<Option<Thing>> {
        things_of(self.slots())
    }

    /// Whether every object is well formed and stands in a free place of
    /// `land`.
    pub open spec fn sound(&self, land: Land) -> bool {
        all_sound(self.slots(), land)
    }

    /// Lets a time `d` pass for every object, one after the other in the
    /// order of their numbers, with `chances[i]` for what the tick of the
    /// object `i` leaves to chance. Then the objects leave the set that do
    /// not live on, and those that were scheduled to be destroyed.
    pub fn advance(
        &mut self,
        world: &mut World,
        spawn_queue: &mut Vec<Gobj>,
        d: i32,
        input: &Input,
        chances: &Vec<Chance>,
    )
        requires
            old(self).wf(),
            old(world).wf(),
            old(self).sound(old(world)@),
            chances@.len() == old(self).slots().len(),
        ensures
            final(self).wf(),
            final(self).next_id == old(self).next_id,
            final(world).wf(),
            final(self).sound(final(world)@),
            final(world)@ == pass(
                old(self).things(),
                old(world)@,
                d as int,
                *input,
                chances@,
                old(self).slots().len() as int,
            ).land,
            final(self).things() == swept(
                pass(
                    old(self).things(),
                    old(world)@,
                    d as int,
                    *input,
                    chances@,
                    old(self).slots().len() as int,
                ).things,
                old(self).to_be_destroyed@ + casualties(
                    old(self).things(),
                    d as int,
                    old(self).slots().len() as int,
                ),
            ),
            final(self).to_be_destroyed@.len() == 0,
            queue_announces(
                old(spawn_queue)@,
                final(spawn_queue)@,
                pass(
                    old(self).things(),
                    old(world)@,
                    d as int,
                    *input,
                    chances@,
                    old(self).slots().len() as int,
                ).announced,
            ),
            final(self).slots().len() == old(self).slots().len(),
            final(world)@.collision == old(world)@.collision,
            final(world)@.map_tl == old(world)@.map_tl,
            final(world)@.marker_size == old(world)@.marker_size,
            final(world)@.food_size == old(world)@.food_size,
            final(world)@.food_issued == old(world)@.food_issued,
    {
        broadcast use vstd::std_specs::hash::group_hash_axioms;

        let n: usize = self.next_id;
        let ghost things0 = self.things();
        let ghost land0 = world@;
        let ghost queue0 = spawn_queue@;
        let ghost doomed0 = self.to_be_destroyed@;
        assert(queue0.subrange(0, queue0.len() as int) =~= queue0);
        assert(doomed0 + casualties(things0, d as int, 0) =~= doomed0);
        let mut i: usize = 0;
        while i < n
            invariant
                0 <= i <= n,
                self.wf(),
                n == self.next_id,
                n == self.slots().len(),
                n == things0.len(),
                n == chances@.len(),
                world.wf(),
                self.sound(world@),
                self.things() == pass(things0, land0, d as int, *input, chances@, i as int).things,
                world@ == pass(things0, land0, d as int, *input, chances@, i as int).land,
                self.to_be_destroyed@ == doomed0 + casualties(things0, d as int, i as int),
                queue_announces(
                    queue0,
                    spawn_queue@,
                    pass(things0, land0, d as int, *input, chances@, i as int).announced,
                ),
            decreases n - i,
        {
            let ghost before = pass(things0, land0, d as int, *input, chances@, i as int);
            let ghost after = pass(things0, land0, d as int, *input, chances@, i + 1);
            let ghost slots = self.slots();
            let ghost queue = spawn_queue@;
            proof {
                lemma_pass_frame(things0, land0, d as int, *input, chances@, i as int);
                assert(before.things[i as int] == things0[i as int]);
                assert(self.things()[i as int] == before.things[i as int]);
            }
            match self.objects.remove(&i) {
                Some(g) => {
                    let mut g = g;
                    assert(slots[i as int] == Some(g));
                    let ghost x = g@;
                    let alive = g.advance(world, spawn_queue, d, input, &chances[i]);
                    if !alive {
                        self.to_be_destroyed.push(i);
                    }
                    self.objects.insert(i, g);
                    proof {
                        assert(self.slots() =~= slots.update(i as int, Some(g)));
                        assert(self.things() =~= after.things);
                        assert(world@ == after.land);
                        assert forall|j: int| 0 <= j < n implies (#[trigger] self.slots()[j] matches Some(
                            o,
                        ) ==> o.wf() && o@.placed_well(world@)) by {
                            if j != i {
                                assert(self.slots()[j] == slots[j]);
                            }
                        }
                        let m = x.dropped(before.land, d as int, chances@[i as int]);
                        if m is Some && !refuses(before.land.markers, before.land.marker_size, m->0) {
                            assert(after.announced == before.announced.push(m->0));
                            assert(spawn_queue@.drop_last() == queue);
                            assert(spawn_queue@.subrange(0, queue0.len() as int) =~= queue.subrange(
                                0,
                                queue0.len() as int,
                            ));
                            assert forall|j: int| 0 <= j < after.announced.len() implies (
                            #[trigger] spawn_queue@[queue0.len() + j]).wf() && spawn_queue@[queue0.len()
                                + j]@.announces(after.announced[j]) by {
                                if j < before.announced.len() {
                                    assert(spawn_queue@[queue0.len() + j] == queue[queue0.len() + j]);
                                }
                            }
                        } else {
                            assert(after.announced == before.announced);
                            assert(spawn_queue@ == queue);
                        }
                    }
                },
                None => {
                    proof {
                        assert(self.slots() =~= slots);
                    }
                },
            }
            i += 1;
        }
        let ghost stepped = self.slots();
        self.destroy_scheduled();
        proof {
            lemma_pass_frame(things0, land0, d as int, *input, chances@, n as int);
            let full = pass(things0, land0, d as int, *input, chances@, n as int);
            let doomed = doomed0 + casualties(things0, d as int, n as int);
            assert(self.things() =~= swept(full.things, doomed));
            assert forall|j: int| 0 <= j < n implies (#[trigger] self.slots()[j] matches Some(o)
                ==> o.wf() && o@.placed_well(world@)) by {
                if self.slots()[j] is Some {
                    assert(self.slots()[j] == stepped[j]);
                }
            }
        }
    }

    /// Lets a time `d` pass for every object, one after the other in the
    /// order of their numbers; what their ticks leave to chance is drawn
    /// here. The outcome is that of `advance` for some numbers within their
    /// bounds.
    pub fn update(&mut self, world: &mut World, spawn_queue: &mut Vec<Gobj>, d: i32, input: &Input)
        requires
            old(self).wf(),
            old(world).wf(),
            old(self).sound(old(world)@),
        ensures
            final(self).wf(),
            final(self).next_id == old(self).next_id,
            final(world).wf(),
            final(self).sound(final(world)@),
            final(self).to_be_destroyed@.len() == 0,
            final(self).slots().len() == old(self).slots().len(),
            final(world)@.collision == old(world)@.collision,
            final(world)@.map_tl == old(world)@.map_tl,
            final(world)@.marker_size == old(world)@.marker_size,
            final(world)@.food_size == old(world)@.food_size,
            final(world)@.food_issued == old(world)@.food_issued,
            exists|chances: Seq<Chance>|
                chances.len() == old(self).slots().len() && (forall|i: int|
                    0 <= i < chances.len() ==> (#[trigger] chances[i]).wf()) && final(world)@
                    == (#[trigger] pass(
                    old(self).things(),
                    old(world)@,
                    d as int,
                    *input,
                    chances,
                    old(self).slots().len() as int,
                )).land && final(self).things() == swept(
                    pass(
                        old(self).things(),
                        old(world)@,
                        d as int,
                        *input,
                        chances,
                        old(self).slots().len() as int,
                    ).things,
                    old(self).to_be_destroyed@ + casualties(
                        old(self).things(),
                        d as int,
                        old(self).slots().len() as int,
                    ),
                ) && queue_announces(
                    old(spawn_queue)@,
                    final(spawn_queue)@,
                    pass(
                        old(self).things(),
                        old(world)@,
                        d as int,
                        *input,
                        chances,
                        old(self).slots().len() as int,
                    ).announced,
                ),
    {
        let n: usize = self.next_id;
        let mut chances: Vec<Chance> = Vec::new();
        let mut i: usize = 0;
        while i < n
            invariant
                0 <= i <= n,
                chances@.len() == i,
                forall|j: int| 0 <= j < i ==> (#[trigger] chances@[j]).wf(),
            decreases n - i,
        {
            chances.push(Chance::draw());
            i += 1;
        }
        self.advance(world, spawn_queue, d, input, &chances);
    }
}

} // verus!

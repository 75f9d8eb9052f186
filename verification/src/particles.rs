//! Bursts of particles: short-lived sparks that announce a marker.

use vstd::prelude::*;
use crate::maths::{between, gen_range, random_ring_point, ring, TAU};
use crate::resources::Color;
use crate::vector::{portion, sat, saturate, Vec2};

verus! {

/// How the particles of a burst move: thrown outwards with a speed and
/// slowed by a drag, or drawn back to the centre by a force and damped; all
/// in thousandths.
#[derive(Debug, Clone, Copy, PartialEq, Eq, Structural)]
pub enum ParticleStyle {
    Explosive(i32, i32),
    Orbit(i32, i32),
}

/// One particle: where it is, how fast it moves per second, and how long it
/// still lives.
#[derive(Debug, Clone, Copy, PartialEq, Eq, Structural)]
pub struct Spark {
    pub position: Vec2,
    pub velocity: Vec2,
    pub life: i32,
}

/// A burst of particles round a centre.
#[derive(Debug, Clone)]
pub struct Particles {
    /// The life the burst began with.
    pub o_life: i32,
    /// What is left of it.
    pub life: i32,
    pub col: Color,
    /// The centre.
    pub pos: Vec2,
    pub style: ParticleStyle,
    pub positions: Vec<Vec2>,
    pub velocities: Vec<Vec2>,
    pub lives: Vec<i32>,
}

/// `share` thousandths of `life`.
pub open spec fn lifespan(life: int, share: int) -> int {
    sat((life * share) / 1000)
}

/// Whether `p` lies on the ring round `origin` in some direction, at a
/// distance between `lo` and `hi`.
pub open spec fn on_ring(p: Vec2, origin: Vec2, lo: int, hi: int) -> bool {
    exists|a: int, d: int| 0 <= a < TAU && between(lo, d, hi) && p == #[trigger] ring(origin, a, d)
}

/// Whether `s` is a particle as a burst round `origin` with the given life,
/// radius and style bears them: born within the radius; one of an explosive
/// burst thrown off at four to six fifths of the style's speed, one of an
/// orbiting burst pushed by less than four fifths of its offset times the
/// force, either way; and living between half the life and all of it.
pub open spec fn well_born(s: Spark, origin: Vec2, life: int, radius: int, style: ParticleStyle) -> bool {
    exists|swing: Vec2, push: int, share: int|
        -800 <= push < 800 && 500 <= share < 1000 && on_ring(s.position, origin, 0, radius) && (
        style matches ParticleStyle::Explosive(initial, _) ==> on_ring(
            swing,
            Vec2::origin(),
            sat((initial * 4) / 5),
            sat((initial * 6) / 5),
        )) && s == #[trigger] Spark::born(origin, life, style, s.position, swing, push, share)
}

/// What a velocity loses to a drag of `drag` thousandths per second in the
/// time `d`.
pub open spec fn slowed(v: Vec2, drag: int, d: int) -> Vec2 {
    v.minus(v.times(drag, 1000).times(d, 1000))
}

impl Spark {
    /// The particle that is born at `place` round `origin`: one of an
    /// explosive burst flies off with the velocity `swing`, one of an
    /// orbiting burst starts with its offset from the centre times the force
    /// times `push` thousandths; it lives `share` thousandths of `life`.
    pub open spec fn born(
        origin: Vec2,
        life: int,
        style: ParticleStyle,
        place: Vec2,
        swing: Vec2,
        push: int,
        share: int,
    ) -> Spark {
        Spark {
            position: place,
            velocity: match style {
                ParticleStyle::Explosive(..) => swing,
                ParticleStyle::Orbit(force, _) => place.minus(origin).times(force as int, 1000).times(
                    push,
                    1000,
                ),
            },
            life: lifespan(life, share) as i32,
        }
    }

    /// The particle a time `d` later, in a burst of the given style round
    /// `centre`: it has moved on with its velocity; an orbiting one is then
    /// drawn back towards the centre by the force; either loses speed to
    /// its drag; and its life is less by `d`. All of it saturates.
    pub open spec fn after(self, style: ParticleStyle, centre: Vec2, d: int) -> Spark {
        let position = self.position.plus(self.velocity.times(d, 1000));
        Spark {
            position,
            velocity: match style {
                ParticleStyle::Explosive(_, dissipation) => slowed(self.velocity, dissipation as int, d),
                ParticleStyle::Orbit(force, damp) => slowed(
                    self.velocity.plus(position.minus(centre).times(sat(-force), 1000).times(d, 1000)),
                    damp as int,
                    d,
                ),
            },
            life: sat(self.life - d) as i32,
        }
    }

    /// The particle that is born at `place` round `origin`.
    pub fn new(
        origin: &Vec2,
        life: i32,
        style: &ParticleStyle,
        place: Vec2,
        swing: Vec2,
        push: i32,
        share: i32,
    ) -> (s: Spark)
        ensures
            s == Spark::born(*origin, life as int, *style, place, swing, push as int, share as int),
    {
        let velocity = match style {
            ParticleStyle::Explosive(..) => swing,
            ParticleStyle::Orbit(force, _) => place.sub(*origin).scale(*force, 1000).scale(push, 1000),
        };
        Spark { position: place, velocity, life: portion(life, share, 1000) }
    }

    /// What `v` loses to the drag in the time `d`.
    fn slow(v: Vec2, drag: i32, d: i32) -> (r: Vec2)
        ensures
            r == slowed(v, drag as int, d as int),
    {
        v.sub(v.scale(drag, 1000).scale(d, 1000))
    }

    /// The particle a time `d` later.
    pub fn step(&self, style: &ParticleStyle, centre: &Vec2, d: i32) -> (s: Spark)
        ensures
            s == self.after(*style, *centre, d as int),
    {
        let position = self.position.add(self.velocity.scale(d, 1000));
        let velocity = match style {
            ParticleStyle::Explosive(_, dissipation) => Self::slow(self.velocity, *dissipation, d),
            ParticleStyle::Orbit(force, damp) => {
                let back: i32 = saturate(-(*force as i64));
                Self::slow(
                    self.velocity.add(position.sub(*centre).scale(back, 1000).scale(d, 1000)),
                    *damp,
                    d,
                )
            },
        };
        Spark { position, velocity, life: saturate(self.life as i64 - d as i64) }
    }
}

/// A burst as the rules read it: its particles in a sequence.
pub struct Burst {
    pub o_life: i32,
    pub life: i32,
    pub col: Color,
    pub pos: Vec2,
    pub style: ParticleStyle,
    pub sparks: Seq<Spark>,
}

impl Burst {
    /// Whether this is a fresh burst of `count` particles round `pos` with
    /// the given life, radius, colour and style.
    pub open spec fn is_burst(
        self,
        pos: Vec2,
        count: int,
        life: int,
        radius: int,
        col: Color,
        style: ParticleStyle,
    ) -> bool {
        &&& self.o_life == life
        &&& self.life == life
        &&& self.col == col
        &&& self.pos == pos
        &&& self.style == style
        &&& self.sparks.len() == count
        &&& forall|i: int| 0 <= i < count ==> well_born(#[trigger] self.sparks[i], pos, life, radius, style)
    }

    /// The burst a time `d` later: every particle moved on, and the life of
    /// the burst less by `d`.
    pub open spec fn after(self, d: int) -> Burst {
        Burst {
            o_life: self.o_life,
            life: sat(self.life - d) as i32,
            col: self.col,
            pos: self.pos,
            style: self.style,
            sparks: Seq::new(self.sparks.len(), |i: int| self.sparks[i].after(self.style, self.pos, d)),
        }
    }
}

impl View for Particles {
    type V = Burst;

    open spec fn view(&self) -> Burst {
        Burst {
            o_life: self.o_life,
            life: self.life,
            col: self.col,
            pos: self.pos,
            style: self.style,
            sparks: Seq::new(
                self.lives@.len(),
                |i: int|
                    Spark {
                        position: self.positions@[i],
                        velocity: self.velocities@[i],
                        life: self.lives@[i],
                    },
            ),
        }
    }
}

impl Particles {
    /// A burst is well formed when it holds a position, a velocity and a
    /// life for each of its particles.
    pub open spec fn wf(&self) -> bool {
        self.positions@.len() == self.lives@.len() && self.velocities@.len() == self.lives@.len()
    }

    /// A burst of `count` particles round `pos`, each born at a chance
    /// point within `radius`.
    pub fn new(pos: &Vec2, count: usize, life: i32, radius: i32, col: Color, style: ParticleStyle) -> (g:
        Particles)
        ensures
            g.wf(),
            g@.is_burst(*pos, count as int, life as int, radius as int, col, style),
    {
        let mut positions: Vec<Vec2> = Vec::new();
        let mut velocities: Vec<Vec2> = Vec::new();
        let mut lives: Vec<i32> = Vec::new();
        let mut i: usize = 0;
        while i < count
            invariant
                0 <= i <= count,
                positions@.len() == i,
                velocities@.len() == i,
                lives@.len() == i,
                forall|j: int|
                    0 <= j < i ==> well_born(
                        Spark {
                            position: #[trigger] positions@[j],
                            velocity: velocities@[j],
                            life: lives@[j],
                        },
                        *pos,
                        life as int,
                        radius as int,
                        style,
                    ),
            decreases count - i,
        {
            let place = random_ring_point(pos, 0, radius);
            let swing = match style {
                ParticleStyle::Explosive(initial, _) => random_ring_point(
                    &Vec2::zero(),
                    portion(initial, 4, 5),
                    portion(initial, 6, 5),
                ),
                ParticleStyle::Orbit(..) => Vec2::zero(),
            };
            let push: i32 = gen_range(0, 1600) - 800;
            let share: i32 = gen_range(500, 1000);
            let s = Spark::new(pos, life, &style, place, swing, push, share);
            let ghost before = (positions@, velocities@, lives@);
            positions.push(s.position);
            velocities.push(s.velocity);
            lives.push(s.life);
            proof {
                assert(s == Spark::born(
                    *pos,
                    life as int,
                    style,
                    s.position,
                    swing,
                    push as int,
                    share as int,
                ));
                assert(well_born(s, *pos, life as int, radius as int, style));
                assert forall|j: int| 0 <= j < i + 1 implies well_born(
                    Spark {
                        position: #[trigger] positions@[j],
                        velocity: velocities@[j],
                        life: lives@[j],
                    },
                    *pos,
                    life as int,
                    radius as int,
                    style,
                ) by {
                    if j < i {
                        assert(positions@[j] == before.0[j]);
                        assert(velocities@[j] == before.1[j]);
                        assert(lives@[j] == before.2[j]);
                    }
                }
            }
            i += 1;
        }
        let g = Particles { o_life: life, life, col, pos: *pos, style, positions, velocities, lives };
        assert forall|j: int| 0 <= j < count implies well_born(
            #[trigger] g@.sparks[j],
            *pos,
            life as int,
            radius as int,
            style,
        ) by {
            assert(g@.sparks[j] == Spark {
                position: g.positions@[j],
                velocity: g.velocities@[j],
                life: g.lives@[j],
            });
        }
        g
    }

    /// Lets a time `d` pass: every particle moves on, and the burst's life
    /// falls by `d`. Returns whether the burst is still alive.
    pub fn update(&mut self, d: i32) -> (alive: bool)
        requires
            old(self).wf(),
        ensures
            final(self).wf(),
            final(self)@ == old(self)@.after(d as int),
            alive == (final(self)@.life > 0),
    {
        let n: usize = self.lives.len();
        let mut i: usize = 0;
        while i < n
            invariant
                0 <= i <= n,
                n == old(self).lives@.len(),
                old(self).wf(),
                self.positions@.len() == n,
                self.velocities@.len() == n,
                self.lives@.len() == n,
                self.life == old(self).life,
                self.o_life == old(self).o_life,
                self.col == old(self).col,
                self.pos == old(self).pos,
                self.style == old(self).style,
                forall|j: int|
                    0 <= j < i ==> (#[trigger] self@.sparks[j]) == old(self)@.sparks[j].after(
                        old(self).style,
                        old(self).pos,
                        d as int,
                    ),
                forall|j: int| i <= j < n ==> (#[trigger] self@.sparks[j]) == old(self)@.sparks[j],
            decreases n - i,
        {
            let ghost before = *self;
            let now = Spark {
                position: self.positions[i],
                velocity: self.velocities[i],
                life: self.lives[i],
            };
            assert(now == self@.sparks[i as int]);
            let next = now.step(&self.style, &self.pos, d);
            self.positions.set(i, next.position);
            self.velocities.set(i, next.velocity);
            self.lives.set(i, next.life);
            proof {
                assert(self@.sparks[i as int] == next);
                assert forall|j: int| 0 <= j < i + 1 implies (#[trigger] self@.sparks[j])
                    == old(self)@.sparks[j].after(old(self).style, old(self).pos, d as int) by {
                    if j < i {
                        assert(self@.sparks[j] == before@.sparks[j]);
                    }
                }
                assert forall|j: int| i + 1 <= j < n implies (#[trigger] self@.sparks[j])
                    == old(self)@.sparks[j] by {
                    assert(self@.sparks[j] == before@.sparks[j]);
                }
            }
            i += 1;
        }
        let ghost moved = *self;
        self.life = saturate(self.life as i64 - d as i64);
        proof {
            assert forall|j: int| 0 <= j < n implies (#[trigger] self@.sparks[j]) == old(self)@.after(
                d as int,
            ).sparks[j] by {
                assert(self@.sparks[j] == moved@.sparks[j]);
            }
            assert(self@.sparks =~= old(self)@.after(d as int).sparks);
        }
        self.life > 0
    }
}

} // verus!

//! The colony's ledger: a store of life that deliveries fill and time drains.

use vstd::prelude::*;
use crate::vector::{floor_div, sat, saturate};

verus! {

/// The most life the hive holds.
pub const HIVE_MAX_LIFE: i32 = 500000;

/// The life a new hive starts with.
pub const HIVE_START_LIFE: i32 = 250000;

/// How many times its value a delivered food is worth in life.
pub const DELIVERY_GAIN: i32 = 5;

pub struct Hive {
    /// What is left of the colony's life, in thousandths of a second.
    pub life: i32,
    /// Whether a delivery by the player waits to be noticed.
    pub player_gave: bool,
}

impl Hive {
    /// The life after a delivery of `value` to a hive holding `life`.
    pub open spec fn fed(life: int, value: int) -> int {
        if life + DELIVERY_GAIN * value > HIVE_MAX_LIFE {
            HIVE_MAX_LIFE as int
        } else {
            sat(life + DELIVERY_GAIN * value)
        }
    }

    /// Which of `count` pictures, ordered from starving to full, shows a
    /// hive holding `life`.
    pub open spec fn tier(life: int, count: int) -> int {
        if life < 0 {
            0
        } else if (life * count) / (HIVE_MAX_LIFE as int) > count - 1 {
            count - 1
        } else {
            (life * count) / (HIVE_MAX_LIFE as int)
        }
    }

    pub fn new() -> (h: Self)
        ensures
            h.life == HIVE_START_LIFE,
            !h.player_gave,
    {
        Hive { life: HIVE_START_LIFE, player_gave: false }
    }

    /// Takes a delivery: the life grows by five times `value`, up to the
    /// maximum, and a delivery by the player is remembered until
    /// `did_player_give` asks for it.
    pub fn deposit(&mut self, is_player: bool, value: i32)
        ensures
            final(self).life == Self::fed(old(self).life as int, value as int),
            final(self).player_gave == (old(self).player_gave || is_player),
    {
        if is_player {
            self.player_gave = true;
        }
        let grown: i64 = self.life as i64 + (DELIVERY_GAIN as i64) * (value as i64);
        if grown > HIVE_MAX_LIFE as i64 {
            self.life = HIVE_MAX_LIFE;
        } else {
            self.life = saturate(grown);
        }
    }

    /// Lets `d` thousandths of a second pass: the life falls by `d`,
    /// whatever it is.
    pub fn update(&mut self, d: i32)
        ensures
            final(self).life == sat(old(self).life - d),
            final(self).player_gave == old(self).player_gave,
    {
        self.life = saturate(self.life as i64 - d as i64);
    }

    pub fn lost(&self) -> (b: bool)
        ensures
            b == (self.life < 0),
    {
        self.life < 0
    }

    /// Whether the player has delivered since this was last asked; asking
    /// forgets it.
    pub fn did_player_give(&mut self) -> (b: bool)
        ensures
            b == old(self).player_gave,
            !final(self).player_gave,
            final(self).life == old(self).life,
    {
        if self.player_gave {
            self.player_gave = false;
            true
        } else {
            false
        }
    }

    /// The index of the picture that shows the hive's state, among `count`
    /// pictures ordered from starving to full.
    pub fn state_as_tex(&self, count: usize) -> (i: usize)
        requires
            count > 0,
        ensures
            i == Self::tier(self.life as int, count as int),
            i < count,
    {
        if self.life < 0 {
            return 0;
        }
        let life: u128 = self.life as u128;
        assert(life * count <= 0x8000_0000 * 0xffff_ffff_ffff_ffff) by (nonlinear_arith)
            requires
                life <= 0x8000_0000,
                count <= 0xffff_ffff_ffff_ffff,
        ;
        let raw: u128 = (life * (count as u128)) / (HIVE_MAX_LIFE as u128);
        if raw > (count - 1) as u128 {
            count - 1
        } else {
            raw as usize
        }
    }

    /// The life as thousandths of the maximum, rounded down.
    pub fn state_as_float(&self) -> (f: i32)
        ensures
            f == (self.life * 1000) / (HIVE_MAX_LIFE as int),
    {
        floor_div(self.life as i64 * 1000, HIVE_MAX_LIFE as i64) as i32
    }
}

} // verus!

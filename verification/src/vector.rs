//! Fixed-point plane geometry.
//!
//! Every quantity of the simulation is an integer in thousandths: a world
//! coordinate of `1000` is one world unit, a duration of `1000` one second.
//! Distances are compared by their squares, which is exact.

use vstd::prelude::*;
use vstd::arithmetic::div_mod::lemma_fundamental_div_mod;
use vstd::arithmetic::div_mod::lemma_fundamental_div_mod_converse;

verus! {

/// One whole unit in the fixed-point scale.
pub const UNIT: i32 = 1000;

/// `v` brought into the range of `i32`.
pub open spec fn sat(v: int) -> int {
    if v < i32::MIN {
        i32::MIN as int
    } else if v > i32::MAX {
        i32::MAX as int
    } else {
        v
    }
}

/// The distance of `v` from zero.
pub open spec fn mag(v: int) -> int {
    if v < 0 {
        -v
    } else {
        v
    }
}

/// `-1`, `0` or `1` as `v` is negative, zero or positive.
pub open spec fn sign(v: int) -> int {
    if v < 0 {
        -1
    } else if v > 0 {
        1
    } else {
        0
    }
}

/// Whether `r` is the largest natural whose square does not exceed `n`.
pub open spec fn is_floor_sqrt(n: nat, r: nat) -> bool {
    r * r <= n < (r + 1) * (r + 1)
}

/// The largest natural whose square does not exceed `n`.
pub open spec fn floor_sqrt(n: nat) -> nat {
    choose|r: nat| is_floor_sqrt(n, r)
}

/// Every natural has a largest natural whose square does not exceed it.
pub proof fn lemma_floor_sqrt_is(n: nat)
    ensures
        is_floor_sqrt(n, floor_sqrt(n)),
    decreases n,
{
    if n == 0 {
        let z: nat = 0;
        assert(z * z <= 0 < (z + 1) * (z + 1)) by (nonlinear_arith)
            requires
                z == 0,
        ;
        assert(is_floor_sqrt(0, z));
    } else {
        let m = (n - 1) as nat;
        lemma_floor_sqrt_is(m);
        let s = floor_sqrt(m);
        if (s + 1) * (s + 1) <= n {
            assert(is_floor_sqrt(n, s + 1)) by (nonlinear_arith)
                requires
                    m < (s + 1) * (s + 1),
                    (s + 1) * (s + 1) <= n,
                    n == m + 1,
            ;
        } else {
            assert(is_floor_sqrt(n, s));
        }
    }
}

/// A natural between whose square and its successor's square `n` lies is the
/// floor of the square root of `n`: there is only one such natural.
pub proof fn lemma_floor_sqrt_unique(n: nat, r: nat)
    requires
        r * r <= n < (r + 1) * (r + 1),
    ensures
        floor_sqrt(n) == r,
{
    let s = floor_sqrt(n);
    assert(is_floor_sqrt(n, r));
    assert(s * s <= n < (s + 1) * (s + 1));
    assert(s == r) by (nonlinear_arith)
        requires
            s * s <= n < (s + 1) * (s + 1),
            r * r <= n < (r + 1) * (r + 1),
    {
        if s < r {
            assert((s + 1) * (s + 1) <= r * r);
        }
        if r < s {
            assert((r + 1) * (r + 1) <= s * s);
        }
    }
}

/// Saturating conversion to `i32`.
pub fn saturate(v: i64) -> (r: i32)
    ensures
        r == sat(v as int),
{
    if v < -2147483648 {
        i32::MIN
    } else if v > 2147483647 {
        i32::MAX
    } else {
        v as i32
    }
}

/// The magnitude of `v` as an unsigned number.
pub fn magnitude(v: i64) -> (r: u64)
    ensures
        r == mag(v as int),
{
    if v >= 0 {
        v as u64
    } else if v == i64::MIN {
        9223372036854775808u64
    } else {
        (-v) as u64
    }
}

/// Floor of the square root, by bisection.
pub fn isqrt(n: u128) -> (r: u64)
    ensures
        r == floor_sqrt(n as nat),
        r * r <= n < (r + 1) * (r + 1),
{
    let mut lo: u128 = 0;
    let mut hi: u128 = 0x1_0000_0000_0000_0000;
    assert(hi * hi > n) by (nonlinear_arith)
        requires
            hi == 0x1_0000_0000_0000_0000,
            n <= u128::MAX,
    ;
    while hi - lo > 1
        invariant
            lo < hi <= 0x1_0000_0000_0000_0000,
            lo * lo <= n < hi * hi,
        decreases hi - lo,
    {
        let mid: u128 = lo + (hi - lo) / 2;
        assert(mid * mid <= 0xffff_ffff_ffff_ffff * 0xffff_ffff_ffff_ffff) by (nonlinear_arith)
            requires
                0 <= mid <= 0xffff_ffff_ffff_ffff,
        ;
        if mid * mid <= n {
            lo = mid;
        } else {
            hi = mid;
        }
    }
    proof {
        lemma_floor_sqrt_unique(n as nat, lo as nat);
    }
    lo as u64
}

/// `floor(num / den)` for a positive `den`, which Rust's `/` gives only for
/// a `num` that is not negative.
pub fn floor_div(num: i64, den: i64) -> (q: i64)
    requires
        den > 0,
    ensures
        q == num as int / den as int,
{
    if num >= 0 {
        num / den
    } else {
        let m: u64 = magnitude(num);
        let d: u64 = den as u64;
        let up: u64 = m / d;
        let rest: u64 = m % d;
        proof {
            lemma_fundamental_div_mod(m as int, d as int);
            if rest == 0 {
                assert(num as int == (-(up as int)) * (d as int)) by (nonlinear_arith)
                    requires
                        m as int == (d as int) * (up as int),
                        num as int == -(m as int),
                ;
                lemma_fundamental_div_mod_converse(num as int, d as int, -(up as int), 0);
            } else {
                assert(num as int == (-(up as int) - 1) * (d as int) + (d as int - rest as int))
                    by (nonlinear_arith)
                    requires
                        m as int == (d as int) * (up as int) + rest as int,
                        num as int == -(m as int),
                ;
                lemma_fundamental_div_mod_converse(
                    num as int,
                    d as int,
                    -(up as int) - 1,
                    d as int - rest as int,
                );
            }
            assert(up + rest <= m) by (nonlinear_arith)
                requires
                    m as int == (d as int) * (up as int) + rest as int,
                    d >= 1,
                    rest >= 0,
                    up >= 0,
            ;
        }
        let down: i128 = if rest == 0 {
            -(up as i128)
        } else {
            -(up as i128) - 1
        };
        down as i64
    }
}

/// `floor(num / den)` for a positive `den` and numbers beyond 64 bits.
pub fn floor_div_wide(num: i128, den: i128) -> (q: i128)
    requires
        den > 0,
        -0x1_0000_0000_0000_0000_0000_0000 <= num <= 0x1_0000_0000_0000_0000_0000_0000,
    ensures
        q == num as int / den as int,
{
    if num >= 0 {
        num / den
    } else {
        let m: i128 = -num;
        let up: i128 = m / den;
        let rest: i128 = m % den;
        proof {
            lemma_fundamental_div_mod(m as int, den as int);
            if rest == 0 {
                assert(num as int == (-(up as int)) * (den as int)) by (nonlinear_arith)
                    requires
                        m as int == (den as int) * (up as int),
                        num as int == -(m as int),
                ;
                lemma_fundamental_div_mod_converse(num as int, den as int, -(up as int), 0);
            } else {
                assert(num as int == (-(up as int) - 1) * (den as int) + (den as int - rest as int))
                    by (nonlinear_arith)
                    requires
                        m as int == (den as int) * (up as int) + rest as int,
                        num as int == -(m as int),
                ;
                lemma_fundamental_div_mod_converse(
                    num as int,
                    den as int,
                    -(up as int) - 1,
                    den as int - rest as int,
                );
            }
            assert(0 <= up <= m) by (nonlinear_arith)
                requires
                    m as int == (den as int) * (up as int) + rest as int,
                    den >= 1,
                    rest >= 0,
                    m >= 0,
                    up == m as int / den as int,
                    up >= 0,
            ;
        }
        if rest == 0 {
            -up
        } else {
            -up - 1
        }
    }
}

/// `v` times `num / den`, rounded down and saturating.
pub fn portion(v: i32, num: i32, den: i32) -> (r: i32)
    requires
        den > 0,
    ensures
        r == sat((v * num) / (den as int)),
{
    assert(-0x8000_0000 * 0x8000_0000 <= v * num <= 0x8000_0000 * 0x8000_0000)
        by (nonlinear_arith)
        requires
            -0x8000_0000 <= v <= 0x8000_0000,
            -0x8000_0000 <= num <= 0x8000_0000,
    ;
    saturate(floor_div(v as i64 * num as i64, den as i64))
}

/// A point or a displacement of the plane, in thousandths of a world unit.
#[derive(Clone, Copy, Debug, PartialEq, Eq, Structural)]
pub struct Vec2 {
    pub x: i32,
    pub y: i32,
}

impl Vec2 {
    /// The origin.
    pub open spec fn origin() -> Vec2 {
        Vec2 { x: 0, y: 0 }
    }

    /// The square of the distance to `other`.
    pub open spec fn dist2(self, other: Vec2) -> int {
        (self.x - other.x) * (self.x - other.x) + (self.y - other.y) * (self.y - other.y)
    }

    /// The square of the length.
    pub open spec fn len2(self) -> int {
        self.x * self.x + self.y * self.y
    }

    /// The length, rounded down.
    pub open spec fn norm(self) -> nat {
        floor_sqrt(self.len2() as nat)
    }

    /// The sum, each coordinate saturating.
    pub open spec fn plus(self, d: Vec2) -> Vec2 {
        Vec2 { x: sat(self.x + d.x) as i32, y: sat(self.y + d.y) as i32 }
    }

    /// The difference, each coordinate saturating.
    pub open spec fn minus(self, d: Vec2) -> Vec2 {
        Vec2 { x: sat(self.x - d.x) as i32, y: sat(self.y - d.y) as i32 }
    }

    /// Whether `other` lies closer than `range`.
    pub open spec fn nearer(self, other: Vec2, range: int) -> bool {
        range > 0 && self.dist2(other) < range * range
    }

    /// Whether `other` lies farther than `range`.
    pub open spec fn farther(self, other: Vec2, range: int) -> bool {
        range < 0 || self.dist2(other) > range * range
    }

    /// One coordinate of a vector stretched or shrunk to length `len`: the
    /// coordinate `c` times `len` over the vector's length `n`, rounded
    /// toward zero.
    pub open spec fn rescale(c: int, len: int, n: int) -> int {
        sign(c) * sign(len) * ((mag(c) * mag(len)) / n)
    }

    /// The vector of the same direction and of length `len`; the zero vector
    /// has no direction and stays zero.
    pub open spec fn resized(self, len: int) -> Vec2 {
        if self.x == 0 && self.y == 0 {
            self
        } else {
            Vec2 {
                x: sat(Self::rescale(self.x as int, len, self.norm() as int)) as i32,
                y: sat(Self::rescale(self.y as int, len, self.norm() as int)) as i32,
            }
        }
    }

    /// The vector times `num / den`, each coordinate rounded down.
    pub open spec fn times(self, num: int, den: int) -> Vec2 {
        Vec2 { x: sat((self.x * num) / den) as i32, y: sat((self.y * num) / den) as i32 }
    }

    pub fn new(x: i32, y: i32) -> (v: Vec2)
        ensures
            v == (Vec2 { x, y }),
    {
        Vec2 { x, y }
    }

    pub fn zero() -> (v: Vec2)
        ensures
            v == Vec2::origin(),
    {
        Vec2 { x: 0, y: 0 }
    }

    pub fn add(self, d: Vec2) -> (v: Vec2)
        ensures
            v == self.plus(d),
    {
        Vec2 {
            x: saturate(self.x as i64 + d.x as i64),
            y: saturate(self.y as i64 + d.y as i64),
        }
    }

    pub fn sub(self, d: Vec2) -> (v: Vec2)
        ensures
            v == self.minus(d),
    {
        Vec2 {
            x: saturate(self.x as i64 - d.x as i64),
            y: saturate(self.y as i64 - d.y as i64),
        }
    }

    /// The square of the distance to `other`.
    pub fn distance_squared(self, other: Vec2) -> (r: u128)
        ensures
            r == self.dist2(other),
    {
        let dx: u64 = magnitude(self.x as i64 - other.x as i64);
        let dy: u64 = magnitude(self.y as i64 - other.y as i64);
        assert(dx * dx == (self.x - other.x) * (self.x - other.x)) by (nonlinear_arith)
            requires
                dx == self.x - other.x || dx == -(self.x - other.x),
        ;
        assert(dy * dy == (self.y - other.y) * (self.y - other.y)) by (nonlinear_arith)
            requires
                dy == self.y - other.y || dy == -(self.y - other.y),
        ;
        assert(dx * dx <= 0xffff_ffff * 0xffff_ffff) by (nonlinear_arith)
            requires
                dx <= 0xffff_ffff,
        ;
        assert(dy * dy <= 0xffff_ffff * 0xffff_ffff) by (nonlinear_arith)
            requires
                dy <= 0xffff_ffff,
        ;
        (dx as u128) * (dx as u128) + (dy as u128) * (dy as u128)
    }

    /// The square of `range`.
    fn range_squared(range: i32) -> (r: u128)
        ensures
            r == range * range,
    {
        let m: u64 = magnitude(range as i64);
        assert(m * m == range * range) by (nonlinear_arith)
            requires
                m == range || m == -range,
        ;
        assert(m * m <= 0x8000_0000 * 0x8000_0000) by (nonlinear_arith)
            requires
                m <= 0x8000_0000,
        ;
        (m as u128) * (m as u128)
    }

    /// Whether `other` lies closer than `range`.
    pub fn within(self, other: Vec2, range: i32) -> (b: bool)
        ensures
            b == self.nearer(other, range as int),
    {
        range > 0 && self.distance_squared(other) < Self::range_squared(range)
    }

    /// Whether `other` lies farther than `range`.
    pub fn beyond(self, other: Vec2, range: i32) -> (b: bool)
        ensures
            b == self.farther(other, range as int),
    {
        range < 0 || self.distance_squared(other) > Self::range_squared(range)
    }

    /// The length, rounded down.
    pub fn length(self) -> (n: u64)
        ensures
            n == self.norm(),
            n <= 0xffff_ffff,
            (self.x != 0 || self.y != 0) ==> n >= 1,
            n >= mag(self.x as int),
            n >= mag(self.y as int),
    {
        let mx: u64 = magnitude(self.x as i64);
        let my: u64 = magnitude(self.y as i64);
        assert(mx * mx == self.x * self.x) by (nonlinear_arith)
            requires
                mx == self.x || mx == -self.x,
        ;
        assert(my * my == self.y * self.y) by (nonlinear_arith)
            requires
                my == self.y || my == -self.y,
        ;
        assert(mx * mx <= 0x8000_0000 * 0x8000_0000) by (nonlinear_arith)
            requires
                mx <= 0x8000_0000,
        ;
        assert(my * my <= 0x8000_0000 * 0x8000_0000) by (nonlinear_arith)
            requires
                my <= 0x8000_0000,
        ;
        let n: u64 = isqrt((mx as u128) * (mx as u128) + (my as u128) * (my as u128));
        assert(n >= mx && n >= my && n <= 0xffff_ffff) by (nonlinear_arith)
            requires
                mx * mx + my * my < (n + 1) * (n + 1),
                n * n <= mx * mx + my * my,
                mx <= 0x8000_0000,
                my <= 0x8000_0000,
        {
            if n < mx {
                assert((n + 1) * (n + 1) <= mx * mx);
            }
            if n < my {
                assert((n + 1) * (n + 1) <= my * my);
            }
            if n > 0xffff_ffff {
                assert(n * n >= 0x1_0000_0000 * 0x1_0000_0000);
            }
        }
        n
    }

    /// One coordinate of `resize`.
    fn rescaled(c: i32, len: i32, n: u64) -> (r: i32)
        requires
            n >= 1,
            n >= mag(c as int),
        ensures
            r == sat(Self::rescale(c as int, len as int, n as int)),
    {
        let mc: u64 = magnitude(c as i64);
        let ml: u64 = magnitude(len as i64);
        assert(mc * ml <= 0x8000_0000 * 0x8000_0000) by (nonlinear_arith)
            requires
                mc <= 0x8000_0000,
                ml <= 0x8000_0000,
        ;
        let q: u64 = (mc * ml) / n;
        proof {
            lemma_fundamental_div_mod((mc * ml) as int, n as int);
            assert(q <= ml) by (nonlinear_arith)
                requires
                    (mc * ml) as int == (n as int) * (q as int) + ((mc * ml) as int % (n as int)),
                    0 <= (mc * ml) as int % (n as int),
                    mc <= n,
                    n >= 1,
                    q >= 0,
                    ml >= 0,
            {
                if q > ml {
                    assert(n * q >= n * (ml + 1));
                    assert(n * (ml + 1) > mc * ml);
                }
            }
        }
        let negative: bool = (c < 0) != (len < 0);
        if c == 0 || len == 0 {
            assert(q == 0 || sign(c as int) * sign(len as int) == 0);
            0
        } else if negative {
            assert(sign(c as int) * sign(len as int) == -1);
            saturate(-(q as i64))
        } else {
            assert(sign(c as int) * sign(len as int) == 1);
            saturate(q as i64)
        }
    }

    /// The vector of the same direction and of length `len`.
    pub fn resize(self, len: i32) -> (v: Vec2)
        ensures
            v == self.resized(len as int),
    {
        if self.x == 0 && self.y == 0 {
            self
        } else {
            let n: u64 = self.length();
            Vec2 { x: Self::rescaled(self.x, len, n), y: Self::rescaled(self.y, len, n) }
        }
    }

    /// The vector times `num / den`.
    pub fn scale(self, num: i32, den: i32) -> (v: Vec2)
        requires
            den > 0,
        ensures
            v == self.times(num as int, den as int),
    {
        assert(self.x * num <= 0x8000_0000 * 0x8000_0000 && self.x * num >= -0x8000_0000
            * 0x8000_0000) by (nonlinear_arith)
            requires
                -0x8000_0000 <= self.x <= 0x8000_0000,
                -0x8000_0000 <= num <= 0x8000_0000,
        ;
        assert(self.y * num <= 0x8000_0000 * 0x8000_0000 && self.y * num >= -0x8000_0000
            * 0x8000_0000) by (nonlinear_arith)
            requires
                -0x8000_0000 <= self.y <= 0x8000_0000,
                -0x8000_0000 <= num <= 0x8000_0000,
        ;
        let qx: i64 = floor_div(self.x as i64 * num as i64, den as i64);
        let qy: i64 = floor_div(self.y as i64 * num as i64, den as i64);
        Vec2 { x: saturate(qx), y: saturate(qy) }
    }
}

/// No component of a vector brought to the length `len` is longer than
/// `len`.
pub proof fn lemma_resized_within(v: Vec2, len: int)
    ensures
        mag(v.resized(len).x as int) <= mag(len),
        mag(v.resized(len).y as int) <= mag(len),
{
    if !(v.x == 0 && v.y == 0) {
        let n = v.norm() as int;
        let x = mag(v.x as int);
        let y = mag(v.y as int);
        let l = mag(len);
        lemma_floor_sqrt_is(v.len2() as nat);
        assert(v.len2() == x * x + y * y) by (nonlinear_arith)
            requires
                v.len2() == v.x * v.x + v.y * v.y,
                x == mag(v.x as int),
                y == mag(v.y as int),
        ;
        assert(x <= n && y <= n && n >= 1) by (nonlinear_arith)
            requires
                n * n <= x * x + y * y < (n + 1) * (n + 1),
                x >= 0,
                y >= 0,
                n >= 0,
                x > 0 || y > 0,
        {
            if n < x {
                assert((n + 1) * (n + 1) <= x * x);
            }
            if n < y {
                assert((n + 1) * (n + 1) <= y * y);
            }
        }
        lemma_share(x, l, n);
        lemma_share(y, l, n);
        lemma_signed(v.x as int, len, (x * l) / n);
        lemma_signed(v.y as int, len, (y * l) / n);
    }
}

/// A length keeps its size under the signs of a component and of the
/// length asked for.
proof fn lemma_signed(c: int, len: int, q: int)
    requires
        q >= 0,
    ensures
        mag(sat(sign(c) * sign(len) * q)) <= q,
{
    let s = sign(c) * sign(len);
    assert(s == -1 || s == 0 || s == 1);
    assert(s * q == -q || s * q == 0 || s * q == q) by (nonlinear_arith)
        requires
            s == -1 || s == 0 || s == 1,
    ;
}

/// A share `a` of `n` parts of a length is no longer than the length.
proof fn lemma_share(a: int, len: int, n: int)
    requires
        0 <= a <= n,
        n >= 1,
        len >= 0,
    ensures
        0 <= (a * len) / n <= len,
{
    vstd::arithmetic::div_mod::lemma_fundamental_div_mod(a * len, n);
    let q = (a * len) / n;
    assert(0 <= q <= len) by (nonlinear_arith)
        requires
            a * len == n * q + (a * len) % n,
            0 <= (a * len) % n < n,
            0 <= a <= n,
            n >= 1,
            len >= 0,
    {
        assert(a * len <= n * len);
        if q > len {
            assert(n * q >= n * (len + 1));
        }
        if q < 0 {
            assert(n * q <= -n);
        }
    }
}

/// Whether `s[i]` is the point of `s` nearest to `p`, and the first of those
/// that are equally near.
pub open spec fn is_nearest(s: Seq<Vec2>, p: Vec2, i: int) -> bool {
    &&& 0 <= i < s.len()
    &&& forall|t: int| 0 <= t < s.len() ==> (#[trigger] s[t]).dist2(p) >= s[i].dist2(p)
    &&& forall|t: int| 0 <= t < i ==> (#[trigger] s[t]).dist2(p) > s[i].dist2(p)
}

/// The index of the point of `s` nearest to `p`, the first of those that are
/// equally near; none where `s` is empty.
pub open spec fn nearest(s: Seq<Vec2>, p: Vec2) -> Option<int> {
    if s.len() == 0 {
        None
    } else {
        Some(choose|i: int| is_nearest(s, p, i))
    }
}

/// There is one nearest point at most.
pub proof fn lemma_nearest_unique(s: Seq<Vec2>, p: Vec2, i: int)
    requires
        is_nearest(s, p, i),
    ensures
        nearest(s, p) == Some(i),
{
    let j = choose|j: int| is_nearest(s, p, j);
    if j < i {
        assert(s[j].dist2(p) > s[i].dist2(p));
    }
    if i < j {
        assert(s[i].dist2(p) > s[j].dist2(p));
    }
}

/// A sequence that is not empty has a nearest point.
pub proof fn lemma_nearest_exists(s: Seq<Vec2>, p: Vec2)
    requires
        s.len() > 0,
    ensures
        nearest(s, p) is Some,
        is_nearest(s, p, nearest(s, p)->0),
    decreases s.len(),
{
    if s.len() == 1 {
        assert(is_nearest(s, p, 0));
    } else {
        let front = s.drop_last();
        lemma_nearest_exists(front, p);
        let b = nearest(front, p)->0;
        let last = s.len() - 1;
        if s[last].dist2(p) < front[b].dist2(p) {
            assert forall|t: int| 0 <= t < s.len() implies (#[trigger] s[t]).dist2(p) >= s[last].dist2(
                p,
            ) by {
                if t < last {
                    assert(front[t] == s[t]);
                }
            }
            assert forall|t: int| 0 <= t < last implies (#[trigger] s[t]).dist2(p) > s[last].dist2(
                p,
            ) by {
                assert(front[t] == s[t]);
            }
            assert(is_nearest(s, p, last));
        } else {
            assert(front[b] == s[b]);
            assert forall|t: int| 0 <= t < s.len() implies (#[trigger] s[t]).dist2(p) >= s[b].dist2(
                p,
            ) by {
                if t < last {
                    assert(front[t] == s[t]);
                }
            }
            assert forall|t: int| 0 <= t < b implies (#[trigger] s[t]).dist2(p) > s[b].dist2(p) by {
                assert(front[t] == s[t]);
            }
            assert(is_nearest(s, p, b));
        }
    }
}

/// The index of the point of `points` nearest to `p`.
pub fn closest(points: &Vec<Vec2>, p: Vec2) -> (r: Option<usize>)
    ensures
        match r {
            Some(i) => i < points@.len() && is_nearest(points@, p, i as int) && nearest(points@, p)
                == Some(i as int),
            None => points@.len() == 0 && nearest(points@, p) is None,
        },
{
    if points.len() == 0 {
        return None;
    }
    let mut best: usize = 0;
    let mut least: u128 = points[0].distance_squared(p);
    let mut j: usize = 1;
    while j < points.len()
        invariant
            1 <= j <= points.len(),
            best < j,
            least == points@[best as int].dist2(p),
            is_nearest(points@.take(j as int), p, best as int),
        decreases points.len() - j,
    {
        let d: u128 = points[j].distance_squared(p);
        let ghost before = points@.take(j as int);
        let ghost after = points@.take(j + 1);
        if d < least {
            best = j;
            least = d;
            assert forall|t: int| 0 <= t < after.len() implies (#[trigger] after[t]).dist2(p)
                >= after[j as int].dist2(p) by {
                if t < j {
                    assert(before[t] == after[t]);
                }
            }
            assert forall|t: int| 0 <= t < j implies (#[trigger] after[t]).dist2(p) > after[j as int].dist2(
                p,
            ) by {
                assert(before[t] == after[t]);
            }
        } else {
            assert forall|t: int| 0 <= t < after.len() implies (#[trigger] after[t]).dist2(p)
                >= after[best as int].dist2(p) by {
                if t < j {
                    assert(before[t] == after[t]);
                }
            }
            assert forall|t: int| 0 <= t < best implies (#[trigger] after[t]).dist2(p)
                > after[best as int].dist2(p) by {
                assert(before[t] == after[t]);
            }
        }
        j += 1;
    }
    proof {
        assert(points@.take(points.len() as int) == points@);
        lemma_nearest_unique(points@, p, best as int);
    }
    Some(best)
}

} // verus!

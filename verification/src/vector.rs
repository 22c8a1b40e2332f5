//! Plane vectors with fixed-point components.
use crate::fixed;
use crate::fixed::{
    clamp, difference, finite, over, product, ratio, saturate, sum, times, trunc_div, UNIT,
};
use vstd::prelude::*;

verus! {

/// A point or a direction in the plane; each component counts millionths.
#[derive(Clone, Copy, PartialEq, Eq, Structural, Debug)]
pub struct Vector {
    pub x: i64,
    pub y: i64,
}

impl Vector {
    /// The vector of no length, the identity of summation.
    pub open spec fn zero() -> Vector {
        Vector { x: 0, y: 0 }
    }

    /// Neither component is `i64::MIN`.  Every operation hands out such
    /// vectors, whatever it was given.
    pub open spec fn is_finite(self) -> bool {
        finite(self.x as int) && finite(self.y as int)
    }

    /// The vector of the same length that points the other way.
    pub open spec fn negated(self) -> Vector {
        Vector { x: clamp(-self.x), y: clamp(-self.y) }
    }

    /// The squared length, in squared millionths.
    pub open spec fn norm_squared(self) -> int {
        self.x * self.x + self.y * self.y
    }

    /// The length: the whole root of the squared length.
    pub open spec fn norm(self) -> i64 {
        clamp(root(self.norm_squared()))
    }

    /// The vector of length one that points where this one points, each
    /// component rounded toward zero; along the first axis where this vector
    /// has no length.
    pub open spec fn direction(self) -> Vector {
        if self.norm_squared() == 0 {
            Vector { x: UNIT, y: 0 }
        } else {
            Vector { x: ratio(self.x, self.norm()), y: ratio(self.y, self.norm()) }
        }
    }
}

impl Vector {
    /// The sum of two vectors, component by component.
    pub open spec fn plus(self, rhs: Vector) -> Vector {
        Vector { x: sum(self.x, rhs.x), y: sum(self.y, rhs.y) }
    }

    /// The difference of two vectors, component by component.
    pub open spec fn minus(self, rhs: Vector) -> Vector {
        Vector { x: difference(self.x, rhs.x), y: difference(self.y, rhs.y) }
    }

    /// The vector stretched by the quantity `scalar`.
    pub open spec fn scaled(self, scalar: i64) -> Vector {
        Vector { x: product(self.x, scalar), y: product(self.y, scalar) }
    }

    /// Adds `rhs`.
    pub fn add(self, rhs: Vector) -> (r: Vector)
        ensures
            r == self.plus(rhs),
    {
        Vector { x: fixed::plus(self.x, rhs.x), y: fixed::plus(self.y, rhs.y) }
    }

    /// Adds `other` in place.
    pub fn add_assign(&mut self, other: Vector)
        ensures
            *final(self) == old(self).plus(other),
    {
        self.x = fixed::plus(self.x, other.x);
        self.y = fixed::plus(self.y, other.y);
    }

    /// Subtracts `rhs`.
    pub fn sub(self, rhs: Vector) -> (r: Vector)
        ensures
            r == self.minus(rhs),
    {
        Vector { x: fixed::minus(self.x, rhs.x), y: fixed::minus(self.y, rhs.y) }
    }

    /// Stretches by the quantity `scalar`.
    pub fn mul(self, scalar: i64) -> (r: Vector)
        ensures
            r == self.scaled(scalar),
    {
        Vector { x: times(self.x, scalar), y: times(self.y, scalar) }
    }
}

/// Whether `r` is the whole root of `n`: the greatest whole number whose
/// square does not pass `n`.
pub open spec fn is_root(r: int, n: int) -> bool {
    r >= 0 && r * r <= n < (r + 1) * (r + 1)
}

/// The whole root of `n`.
pub open spec fn root(n: int) -> int {
    choose|r: int| is_root(r, n)
}

/// A number has one whole root at most.
pub proof fn lemma_root_unique(r: int, n: int)
    requires
        is_root(r, n),
    ensures
        root(n) == r,
{
    let s = root(n);
    assert(is_root(s, n));
    assert(r == s) by (nonlinear_arith)
        requires
            r >= 0,
            s >= 0,
            r * r <= n < (r + 1) * (r + 1),
            s * s <= n < (s + 1) * (s + 1),
    ;
}

/// The whole root of `n`.
pub fn whole_root(n: u128) -> (r: u64)
    ensures
        r == root(n as int),
        is_root(r as int, n as int),
{
    let mut low: u128 = 0;
    let mut high: u128 = 0x1_0000_0000_0000_0000;
    assert(low * low <= n < high * high) by (nonlinear_arith)
        requires
            low == 0,
            high == 0x1_0000_0000_0000_0000,
            n <= 0xffff_ffff_ffff_ffff_ffff_ffff_ffff_ffff,
    ;
    while high - low > 1
        invariant
            low < high <= 0x1_0000_0000_0000_0000,
            low * low <= n < high * high,
        decreases high - low,
    {
        let middle = low + (high - low) / 2;
        assert(middle * middle <= 0xffff_ffff_ffff_fffe_0000_0000_0000_0001) by (nonlinear_arith)
            requires
                0 <= middle <= 0xffff_ffff_ffff_ffff,
        ;
        if middle * middle <= n {
            low = middle;
        } else {
            high = middle;
        }
    }
    proof {
        lemma_root_unique(low as int, n as int);
    }
    low as u64
}

/// The exact sum of the first components of `items`.
pub open spec fn total_x(items: Seq<Vector>) -> int
    decreases items.len(),
{
    if items.len() == 0 {
        0
    } else {
        total_x(items.drop_last()) + items.last().x
    }
}

/// The exact sum of the second components of `items`.
pub open spec fn total_y(items: Seq<Vector>) -> int
    decreases items.len(),
{
    if items.len() == 0 {
        0
    } else {
        total_y(items.drop_last()) + items.last().y
    }
}

/// The sum of `items`: the zero vector for no items; each component sticks
/// to the limit only where the exact sum lies beyond it.
pub open spec fn total(items: Seq<Vector>) -> Vector {
    Vector { x: clamp(total_x(items)), y: clamp(total_y(items)) }
}

/// The exact sum of `items` divided by a positive `n`, each component
/// rounded toward zero.
pub open spec fn mean(items: Seq<Vector>, n: int) -> Vector
    recommends
        n > 0,
{
    Vector { x: clamp(trunc_div(total_x(items), n)), y: clamp(trunc_div(total_y(items), n)) }
}

/// How many of `flags` are set.
pub open spec fn count_true(flags: Seq<bool>) -> nat
    decreases flags.len(),
{
    if flags.len() == 0 {
        0
    } else {
        count_true(flags.drop_last()) + if flags.last() {
            1nat
        } else {
            0nat
        }
    }
}

/// One more item adds its components to the sums of a prefix.
pub proof fn lemma_total_step(items: Seq<Vector>, i: int)
    requires
        0 <= i < items.len(),
    ensures
        total_x(items.take(i + 1)) == total_x(items.take(i)) + items[i].x,
        total_y(items.take(i + 1)) == total_y(items.take(i)) + items[i].y,
{
    assert(items.take(i + 1).drop_last() =~= items.take(i));
}

/// One more flag adds one to the count of a prefix if it is set.
pub proof fn lemma_count_step(flags: Seq<bool>, i: int)
    requires
        0 <= i < flags.len(),
    ensures
        count_true(flags.take(i + 1)) == count_true(flags.take(i)) + if flags[i] {
            1nat
        } else {
            0nat
        },
        count_true(flags.take(i)) <= i,
    decreases i,
{
    assert(flags.take(i + 1).drop_last() =~= flags.take(i));
    if i > 0 {
        lemma_count_step(flags, i - 1);
    }
}

impl Vector {
    /// Adds up `items`; the sum of none is the zero vector.
    pub fn sum(items: &Vec<Vector>) -> (r: Vector)
        ensures
            r == total(items@),
    {
        let mut wide_x: i128 = 0;
        let mut wide_y: i128 = 0;
        let mut i: usize = 0;
        while i < items.len()
            invariant
                i <= items.len(),
                wide_x == total_x(items@.take(i as int)),
                wide_y == total_y(items@.take(i as int)),
                -(i as int) * 0x8000_0000_0000_0000 <= wide_x <= i * 0x8000_0000_0000_0000,
                -(i as int) * 0x8000_0000_0000_0000 <= wide_y <= i * 0x8000_0000_0000_0000,
            decreases items.len() - i,
        {
            proof {
                lemma_total_step(items@, i as int);
            }
            wide_x = wide_x + items[i].x as i128;
            wide_y = wide_y + items[i].y as i128;
            i = i + 1;
        }
        assert(items@.take(i as int) =~= items@);
        Vector { x: saturate(wide_x), y: saturate(wide_y) }
    }

    /// The length.
    pub fn length(self) -> (r: i64)
        ensures
            r == self.norm(),
            self.norm_squared() > 0 ==> r > 0,
    {
        let squared = self.squared_length();
        let r = whole_root(squared);
        proof {
            if squared > 0 && r == 0 {
                assert((r + 1) * (r + 1) == 1) by (nonlinear_arith)
                    requires
                        r == 0,
                ;
            }
        }
        if r > 0x7fff_ffff_ffff_ffff {
            0x7fff_ffff_ffff_ffff
        } else {
            r as i64
        }
    }

    /// The vector of length one that points where this one points.
    pub fn heading(self) -> (r: Vector)
        ensures
            r == self.direction(),
    {
        let long = self.length();
        if self.squared_length() == 0 {
            Vector { x: 1_000_000, y: 0 }
        } else {
            Vector { x: over(self.x, long), y: over(self.y, long) }
        }
    }

    /// The squared length, in squared millionths.
    pub fn squared_length(self) -> (r: u128)
        ensures
            r == self.norm_squared(),
    {
        let x: i128 = self.x as i128;
        let y: i128 = self.y as i128;
        assert(0 <= x * x <= 0x4000_0000_0000_0000_0000_0000_0000_0000) by (nonlinear_arith)
            requires
                -0x8000_0000_0000_0000 <= x <= 0x8000_0000_0000_0000,
        ;
        assert(0 <= y * y <= 0x4000_0000_0000_0000_0000_0000_0000_0000) by (nonlinear_arith)
            requires
                -0x8000_0000_0000_0000 <= y <= 0x8000_0000_0000_0000,
        ;
        (x * x) as u128 + (y * y) as u128
    }
}

} // verus!

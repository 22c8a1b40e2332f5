//! A force together with a torque.
use crate::fixed::{clamp, over, product, ratio, saturate, times};
use crate::vector::{total, Vector};
use vstd::prelude::*;

verus! {

/// What acts on a body in the plane: a force, and a torque about its centre.
#[derive(Clone, Copy, PartialEq, Eq, Structural, Debug)]
pub struct Wrench {
    pub force: Vector,
    pub torque: i64,
}

/// The forces of `items`, in order.
pub open spec fn forces(items: Seq<Wrench>) -> Seq<Vector> {
    Seq::new(items.len(), |i: int| items[i].force)
}

/// The exact sum of the torques of `items`.
pub open spec fn total_torque(items: Seq<Wrench>) -> int
    decreases items.len(),
{
    if items.len() == 0 {
        0
    } else {
        total_torque(items.drop_last()) + items.last().torque
    }
}

impl Wrench {
    /// The wrench stretched by the quantity `scalar`.
    pub open spec fn scaled(self, scalar: i64) -> Wrench {
        Wrench { force: self.force.scaled(scalar), torque: product(self.torque, scalar) }
    }

    /// The wrench divided by the quantity `scalar`.
    pub open spec fn divided(self, scalar: i64) -> Wrench
        recommends
            scalar != 0,
    {
        Wrench {
            force: Vector { x: ratio(self.force.x, scalar), y: ratio(self.force.y, scalar) },
            torque: ratio(self.torque, scalar),
        }
    }

    /// Adds up `items`: forces and torques apart; the sum of none is the
    /// wrench of no force and no torque.
    pub fn sum(items: &Vec<Wrench>) -> (r: Wrench)
        ensures
            r.force == total(forces(items@)),
            r.torque == clamp(total_torque(items@)),
    {
        let mut pushes: Vec<Vector> = Vec::new();
        let mut wide: i128 = 0;
        let mut i: usize = 0;
        while i < items.len()
            invariant
                i <= items.len(),
                pushes@ == forces(items@).take(i as int),
                wide == total_torque(items@.take(i as int)),
                -(i as int) * 0x8000_0000_0000_0000 <= wide <= i * 0x8000_0000_0000_0000,
            decreases items.len() - i,
        {
            assert(items@.take(i + 1).drop_last() =~= items@.take(i as int));
            assert(forces(items@).take(i + 1) =~= forces(items@).take(i as int).push(
                items@[i as int].force,
            ));
            pushes.push(items[i].force);
            wide = wide + items[i].torque as i128;
            i = i + 1;
        }
        assert(items@.take(i as int) =~= items@);
        assert(forces(items@).take(i as int) =~= forces(items@));
        Wrench { force: Vector::sum(&pushes), torque: saturate(wide) }
    }

    /// Stretches by the quantity `scalar`.
    pub fn mul(self, scalar: i64) -> (r: Wrench)
        ensures
            r == self.scaled(scalar),
    {
        Wrench { force: self.force.mul(scalar), torque: times(self.torque, scalar) }
    }

    /// Divides by the quantity `scalar`.
    pub fn div(self, scalar: i64) -> (r: Wrench)
        requires
            scalar != 0,
        ensures
            r == self.divided(scalar),
    {
        Wrench {
            force: Vector { x: over(self.force.x, scalar), y: over(self.force.y, scalar) },
            torque: over(self.torque, scalar),
        }
    }
}

} // verus!

//! The whole population, which moves in step.
use crate::fish::{Fish, FishKind};
use crate::grid::Grid;
use crate::vector::Vector;
use vstd::prelude::*;

verus! {

/// What a picture needs to know of a fish.
#[derive(Clone, Copy, PartialEq, Eq, Structural, Debug)]
pub struct Agent {
    pub position: Vector,
    /// The direction in which the fish swims, as a vector of length one.
    pub heading: Vector,
    pub kind: FishKind,
}

/// The pixels after `fishes` were drawn over `pixels`, one after the other.
pub open spec fn pictured(fishes: Seq<Fish>, pixels: Seq<u32>, center: Vector) -> Seq<u32>
    decreases fishes.len(),
{
    if fishes.len() == 0 {
        pixels
    } else {
        fishes.last().painted_on(pictured(fishes.drop_last(), pixels, center), center)
    }
}

/// All the fish.  Their order is the order in which they are drawn and means
/// nothing else.
pub struct Shoal {
    pub fishes: Vec<Fish>,
}

impl Shoal {
    /// The population one step later, at time `t`: every fish moved by what
    /// the population did to it as it was before the step.
    pub open spec fn stepped(self, t: i64) -> Seq<Fish> {
        Seq::new(self.fishes@.len(), |i: int| self.fishes@[i].after(t, self.fishes@))
    }

    /// A population of `school_fish_count` school fish followed by
    /// `predator_count` predators, each as it starts out.
    pub fn new(school_fish_count: usize, predator_count: usize) -> (shoal: Shoal)
        requires
            school_fish_count + predator_count <= usize::MAX,
        ensures
            shoal.fishes@.len() == school_fish_count + predator_count,
            forall|i: int|
                0 <= i < school_fish_count ==> (#[trigger] shoal.fishes@[i]).starts_as(
                    FishKind::SchoolFish,
                ),
            forall|i: int|
                school_fish_count <= i < school_fish_count + predator_count ==> (
                #[trigger] shoal.fishes@[i]).starts_as(FishKind::Predator),
    {
        let mut fishes: Vec<Fish> = Vec::new();
        let mut made: usize = 0;
        while made < school_fish_count
            invariant
                made <= school_fish_count,
                fishes@.len() == made,
                forall|i: int|
                    0 <= i < made ==> (#[trigger] fishes@[i]).starts_as(FishKind::SchoolFish),
            decreases school_fish_count - made,
        {
            fishes.push(Fish::create_initial_state(FishKind::SchoolFish));
            made = made + 1;
        }
        let mut hunters: usize = 0;
        while hunters < predator_count
            invariant
                hunters <= predator_count,
                school_fish_count + predator_count <= usize::MAX,
                fishes@.len() == school_fish_count + hunters,
                forall|i: int|
                    0 <= i < school_fish_count ==> (#[trigger] fishes@[i]).starts_as(
                        FishKind::SchoolFish,
                    ),
                forall|i: int|
                    school_fish_count <= i < school_fish_count + hunters ==> (
                    #[trigger] fishes@[i]).starts_as(FishKind::Predator),
            decreases predator_count - hunters,
        {
            fishes.push(Fish::create_initial_state(FishKind::Predator));
            hunters = hunters + 1;
        }
        Shoal { fishes }
    }

    /// Moves every fish to time `t`.  Each fish is moved by the others as they
    /// were before this step, never as they are after it.
    pub fn swim(&mut self, t: i64)
        ensures
            final(self).fishes@ == old(self).stepped(t),
    {
        let fishes = self.fishes.clone();
        assert(fishes@ =~= self.fishes@);
        let mut i: usize = 0;
        while i < self.fishes.len()
            invariant
                i <= self.fishes@.len(),
                fishes@ == old(self).fishes@,
                self.fishes@.len() == fishes@.len(),
                forall|j: int| 0 <= j < i ==> self.fishes@[j] == fishes@[j].after(t, fishes@),
                forall|j: int| i <= j < fishes@.len() ==> self.fishes@[j] == fishes@[j],
            decreases self.fishes@.len() - i,
        {
            let mut fish = self.fishes[i];
            fish.swim(t, &fishes);
            self.fishes.set(i, fish);
            i = i + 1;
        }
        assert(self.fishes@ =~= old(self).stepped(t));
    }

    /// Draws every fish, the later ones over the earlier ones.
    pub fn draw(&self, grid: &mut Grid)
        requires
            old(grid).wf(),
        ensures
            final(grid).wf(),
            final(grid).center == old(grid).center,
            final(grid).buffer@ == pictured(self.fishes@, old(grid).buffer@, old(grid).center),
    {
        let mut i: usize = 0;
        while i < self.fishes.len()
            invariant
                i <= self.fishes@.len(),
                grid.wf(),
                grid.center == old(grid).center,
                grid.buffer@ == pictured(
                    self.fishes@.take(i as int),
                    old(grid).buffer@,
                    old(grid).center,
                ),
            decreases self.fishes@.len() - i,
        {
            assert(self.fishes@.take(i + 1).drop_last() =~= self.fishes@.take(i as int));
            self.fishes[i].draw(grid);
            i = i + 1;
        }
        assert(self.fishes@.take(i as int) =~= self.fishes@);
    }

    /// What a picture needs to know of each fish, in order: where it is,
    /// where it is heading, and what it is.
    pub fn agents(&self) -> (view: Vec<Agent>)
        ensures
            view@.len() == self.fishes@.len(),
            forall|i: int|
                0 <= i < view@.len() ==> view@[i] == (Agent {
                    position: self.fishes@[i].position,
                    heading: self.fishes@[i].velocity.direction(),
                    kind: self.fishes@[i].kind,
                }),
    {
        let mut view: Vec<Agent> = Vec::new();
        let mut i: usize = 0;
        while i < self.fishes.len()
            invariant
                i <= self.fishes@.len(),
                view@.len() == i,
                forall|j: int|
                    0 <= j < i ==> view@[j] == (Agent {
                        position: self.fishes@[j].position,
                        heading: self.fishes@[j].velocity.direction(),
                        kind: self.fishes@[j].kind,
                    }),
            decreases self.fishes@.len() - i,
        {
            let fish = &self.fishes[i];
            view.push(
                Agent { position: fish.position, heading: fish.velocity.heading(), kind: fish.kind },
            );
            i = i + 1;
        }
        view
    }
}

} // verus!

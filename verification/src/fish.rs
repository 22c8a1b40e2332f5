//! One fish: the forces that others exert on it, and its motion.
use crate::chance::{fresh_id, uniform_below};
use crate::fixed::{clamp, difference, minus, quotient, saturate, trunc_div, UNIT};
use crate::grid::{disc_covers, lemma_screen, line_covers, Grid};
use crate::vector::{count_true, lemma_count_step, lemma_total_step, mean, total_x, total_y, Vector};
use crate::{
    ALIGNMENT_FORCE_FACTOR, ATTRACTION_FORCE_FACTOR, HEIGHT, INITIAL_SPEED,
    PREDATOR_ATTRACTION_FACTOR, PREDATOR_REPULSION_FACTOR, REPULSION_FORCE_FACTOR,
    VISIBILITY_DISTANCE, WIDTH,
};
use vstd::prelude::*;

verus! {

/// What a fish is; it decides which rule moves it.
#[derive(Clone, Copy, PartialEq, Eq, Structural, Debug)]
pub enum FishKind {
    SchoolFish,
    Predator,
}

impl FishKind {
    /// The colour in which a fish of this kind is drawn.
    pub open spec fn spec_color(self) -> u32 {
        match self {
            FishKind::Predator => 0xff0000,
            FishKind::SchoolFish => 0xfffffff,
        }
    }

    /// The radius of the head of a fish of this kind, in whole units.
    pub open spec fn spec_head_radius(self) -> usize {
        match self {
            FishKind::Predator => 5,
            FishKind::SchoolFish => 3,
        }
    }

    /// The length of the tail of a fish of this kind: 15 or 8.
    pub open spec fn spec_tail_length(self) -> i64 {
        match self {
            FishKind::Predator => 15_000_000,
            FishKind::SchoolFish => 8_000_000,
        }
    }

    /// The colour in which a fish of this kind is drawn.
    #[verifier::when_used_as_spec(spec_color)]
    pub fn color(self) -> (c: u32)
        ensures
            c == self.spec_color(),
    {
        match self {
            FishKind::Predator => 0xff0000,
            FishKind::SchoolFish => 0xfffffff,
        }
    }

    /// The radius of the head of a fish of this kind, in whole units.
    #[verifier::when_used_as_spec(spec_head_radius)]
    pub fn head_radius(self) -> (r: usize)
        ensures
            r == self.spec_head_radius(),
    {
        match self {
            FishKind::Predator => 5,
            FishKind::SchoolFish => 3,
        }
    }

    /// The length of the tail of a fish of this kind.
    #[verifier::when_used_as_spec(spec_tail_length)]
    pub fn tail_length(self) -> (l: i64)
        ensures
            l == self.spec_tail_length(),
    {
        match self {
            FishKind::Predator => 15_000_000,
            FishKind::SchoolFish => 8_000_000,
        }
    }
}

/// One simulated fish.
#[derive(Clone, Copy, PartialEq, Eq, Structural, Debug)]
pub struct Fish {
    /// Tells the fish apart from every other; it never changes.
    pub id: u128,
    pub position: Vector,
    pub velocity: Vector,
    /// The time, in seconds, at which position and velocity were computed.
    pub t: i64,
    /// Fixed when the fish is made.
    pub kind: FishKind,
}

/// The push along `-delta` of strength `factor` over the length of `delta`,
/// that is `-delta * factor / |delta|^2`, each component rounded toward zero;
/// nothing where `delta` has no length.
pub open spec fn push_away(delta: Vector, factor: i64) -> Vector {
    if delta.norm_squared() == 0 {
        Vector::zero()
    } else {
        Vector {
            x: clamp(trunc_div(-(delta.x * (factor * UNIT)), delta.norm_squared())),
            y: clamp(trunc_div(-(delta.y * (factor * UNIT)), delta.norm_squared())),
        }
    }
}

fn pushed_away(delta: Vector, d2: u128, factor: i64) -> (r: Vector)
    requires
        delta.is_finite(),
        d2 == delta.norm_squared(),
        d2 > 0,
        0 <= factor <= PREDATOR_REPULSION_FACTOR,
    ensures
        r == push_away(delta, factor),
{
    let strength: i128 = factor as i128 * UNIT as i128;
    let dx: i128 = delta.x as i128;
    let dy: i128 = delta.y as i128;
    assert(-0x4000_0000_0000_0000_0000_0000_0000_0000 <= dx * strength
        <= 0x4000_0000_0000_0000_0000_0000_0000_0000) by (nonlinear_arith)
        requires
            -0x8000_0000_0000_0000 <= dx <= 0x8000_0000_0000_0000,
            0 <= strength <= 0x8000_0000_0000_0000,
    ;
    assert(-0x4000_0000_0000_0000_0000_0000_0000_0000 <= dy * strength
        <= 0x4000_0000_0000_0000_0000_0000_0000_0000) by (nonlinear_arith)
        requires
            -0x8000_0000_0000_0000 <= dy <= 0x8000_0000_0000_0000,
            0 <= strength <= 0x8000_0000_0000_0000,
    ;
    assert(dx * dx <= 0x3fff_ffff_ffff_ffff_0000_0000_0000_0001) by (nonlinear_arith)
        requires
            -0x7fff_ffff_ffff_ffff <= dx <= 0x7fff_ffff_ffff_ffff,
    ;
    assert(dy * dy <= 0x3fff_ffff_ffff_ffff_0000_0000_0000_0001) by (nonlinear_arith)
        requires
            -0x7fff_ffff_ffff_ffff <= dy <= 0x7fff_ffff_ffff_ffff,
    ;
    let divisor: i128 = d2 as i128;
    Vector {
        x: saturate(quotient(-(dx * strength), divisor)),
        y: saturate(quotient(-(dy * strength), divisor)),
    }
}

/// For each fish of `all`, whether it is of `kind`.
pub open spec fn of_kind(all: Seq<Fish>, kind: FishKind) -> Seq<bool> {
    Seq::new(all.len(), |i: int| all[i].kind == kind)
}

/// For each fish of `all`, its position if it is a school fish, the zero
/// vector otherwise.
pub open spec fn school_positions(all: Seq<Fish>) -> Seq<Vector> {
    Seq::new(
        all.len(),
        |i: int|
            if all[i].kind == FishKind::SchoolFish {
                all[i].position
            } else {
                Vector::zero()
            },
    )
}

/// The mean position of the school fish of `all`.
pub open spec fn centroid(all: Seq<Fish>) -> Vector
    recommends
        count_true(of_kind(all, FishKind::SchoolFish)) > 0,
{
    mean(school_positions(all), count_true(of_kind(all, FishKind::SchoolFish)) as int)
}

impl Fish {
    /// The way from this fish to `other`.
    pub open spec fn offset_to(self, other: Fish) -> Vector {
        other.position.minus(self.position)
    }

    /// Whether `other` is no farther away than the visibility distance.
    pub open spec fn sees(self, other: Fish) -> bool {
        self.offset_to(other).norm_squared() <= VISIBILITY_DISTANCE * VISIBILITY_DISTANCE
    }

    /// Whether `other` stands where this fish stands: no distance that can be
    /// stored separates them.
    pub open spec fn coincides_with(self, other: Fish) -> bool {
        self.offset_to(other).norm_squared() == 0
    }

    /// The pull toward `other`, which grows with the distance.
    pub open spec fn attraction(self, other: Fish) -> Vector {
        self.offset_to(other).scaled(ATTRACTION_FORCE_FACTOR)
    }

    /// The urge to swim as `other` does, whatever the distance.
    pub open spec fn alignment(self, other: Fish) -> Vector {
        other.velocity.minus(self.velocity).scaled(ALIGNMENT_FORCE_FACTOR)
    }

    /// The push away from `other`, which grows as the distance shrinks.
    pub open spec fn repulsion(self, other: Fish) -> Vector {
        push_away(self.offset_to(other), REPULSION_FORCE_FACTOR)
    }

    /// What `other` does to this fish as one school fish to another: nothing
    /// when out of sight or at the same place, else attraction, alignment and
    /// repulsion together.
    pub open spec fn pair_force(self, other: Fish) -> Vector {
        if !self.sees(other) || self.coincides_with(other) {
            Vector::zero()
        } else {
            self.attraction(other).plus(self.alignment(other)).plus(self.repulsion(other))
        }
    }

    /// What `predator` does to this fish: a push away from it, and nothing
    /// when both are at the same place.
    pub open spec fn flight(self, predator: Fish) -> Vector {
        push_away(self.offset_to(predator), PREDATOR_REPULSION_FACTOR)
    }

    /// Whether `other` is a school fish other than this one.
    pub open spec fn is_neighbour(self, other: Fish) -> bool {
        other.kind == FishKind::SchoolFish && other.id != self.id
    }

    /// What `other` adds to the interaction of this school fish: its pair
    /// force if it is a neighbour, nothing otherwise.
    pub open spec fn pull(self, other: Fish) -> Vector {
        if self.is_neighbour(other) {
            self.pair_force(other)
        } else {
            Vector::zero()
        }
    }

    /// The pull of each fish of `all`, in order.
    pub open spec fn pulls(self, all: Seq<Fish>) -> Seq<Vector> {
        Seq::new(all.len(), |i: int| self.pull(all[i]))
    }

    /// For each fish of `all`, whether it is a neighbour in sight.
    pub open spec fn sightings(self, all: Seq<Fish>) -> Seq<bool> {
        Seq::new(all.len(), |i: int| self.is_neighbour(all[i]) && self.sees(all[i]))
    }

    /// The pair forces of the neighbours, averaged over the neighbours in
    /// sight; nothing when none is in sight.
    pub open spec fn interaction(self, all: Seq<Fish>) -> Vector {
        let in_sight = count_true(self.sightings(all));
        if in_sight == 0 {
            Vector::zero()
        } else {
            mean(self.pulls(all), in_sight as int)
        }
    }

    /// For each fish of `all`, the push with which it drives this fish away
    /// if it is a predator, nothing otherwise.
    pub open spec fn threats(self, all: Seq<Fish>) -> Seq<Vector> {
        Seq::new(
            all.len(),
            |i: int|
                if all[i].kind == FishKind::Predator {
                    self.flight(all[i])
                } else {
                    Vector::zero()
                },
        )
    }

    /// The pushes of the predators, averaged over the predators; nothing when
    /// there is none.
    pub open spec fn predator_repulsion(self, all: Seq<Fish>) -> Vector {
        let hunters = count_true(of_kind(all, FishKind::Predator));
        if hunters == 0 {
            Vector::zero()
        } else {
            mean(self.threats(all), hunters as int)
        }
    }

    /// The pull that draws a predator to the centre of the school; nothing
    /// when there is no school fish.
    pub open spec fn pursuit(self, all: Seq<Fish>) -> Vector {
        if count_true(of_kind(all, FishKind::SchoolFish)) == 0 {
            Vector::zero()
        } else {
            centroid(all).minus(self.position).scaled(PREDATOR_ATTRACTION_FACTOR)
        }
    }

    /// The acceleration of this fish among `all`: a predator pursues the
    /// school; a school fish flees the predators and interacts with its
    /// neighbours.
    pub open spec fn acceleration_among(self, all: Seq<Fish>) -> Vector {
        match self.kind {
            FishKind::Predator => self.pursuit(all),
            FishKind::SchoolFish => self.predator_repulsion(all).plus(self.interaction(all)),
        }
    }

    /// This fish at time `t` under `acceleration`: the position advances by
    /// the velocity it had before, then the velocity by the acceleration.
    pub open spec fn moved(self, acceleration: Vector, t: i64) -> Fish {
        let dt = difference(t, self.t);
        Fish {
            id: self.id,
            position: self.position.plus(self.velocity.scaled(dt)),
            velocity: self.velocity.plus(acceleration.scaled(dt)),
            t,
            kind: self.kind,
        }
    }

    /// This fish at time `t`, moved by what `all` does to it.
    pub open spec fn after(self, t: i64, all: Seq<Fish>) -> Fish {
        self.moved(self.acceleration_among(all), t)
    }

    /// Position and velocity are finite.  Every fish that the library hands
    /// out is valid; the functions take any fish.
    pub open spec fn is_valid(self) -> bool {
        self.position.is_finite() && self.velocity.is_finite()
    }

    /// Whether this is a fish of `kind` as it starts out: on a whole-numbered
    /// place in the lower left quarter of the world, with the initial speed
    /// along the first axis, at time zero.
    pub open spec fn starts_as(self, kind: FishKind) -> bool {
        &&& self.kind == kind
        &&& 0 <= self.position.x < (WIDTH / 2) * UNIT
        &&& 0 <= self.position.y < (HEIGHT / 2) * UNIT
        &&& self.position.x % UNIT == 0
        &&& self.position.y % UNIT == 0
        &&& self.velocity == (Vector { x: INITIAL_SPEED, y: 0 })
        &&& self.t == 0
    }

    /// A new fish of `fish_kind` at a random place, under a random name.
    pub fn create_initial_state(fish_kind: FishKind) -> (fish: Fish)
        ensures
            fish.starts_as(fish_kind),
    {
        let initial_x = uniform_below(WIDTH / 2);
        let initial_y = uniform_below(HEIGHT / 2);
        Fish {
            id: fresh_id(),
            position: Vector { x: initial_x as i64 * UNIT, y: initial_y as i64 * UNIT },
            velocity: Vector { x: INITIAL_SPEED, y: 0 },
            t: 0,
            kind: fish_kind,
        }
    }

    /// Where the tail of the fish ends: a tail's length behind its position,
    /// against the direction in which it swims.
    pub open spec fn tail_end(self) -> Vector {
        self.position.minus(self.velocity.direction().scaled(self.kind.tail_length()))
    }

    /// Whether the drawing of this fish colours the pixel `k` of the picture
    /// round `center`: the head is a disc round the position, the tail a line
    /// from the position to the tail's end.
    pub open spec fn covers(self, center: Vector, k: int) -> bool {
        ||| disc_covers(
            center,
            self.position.x,
            self.position.y,
            self.kind.head_radius() as int,
            k,
        )
        ||| line_covers(
            center,
            self.position.x,
            self.position.y,
            self.tail_end().x,
            self.tail_end().y,
            k,
        )
    }

    /// The pixels after this fish was drawn over `pixels`.
    pub open spec fn painted_on(self, pixels: Seq<u32>, center: Vector) -> Seq<u32> {
        Seq::new(
            pixels.len(),
            |k: int|
                if self.covers(center, k) {
                    self.kind.color()
                } else {
                    pixels[k]
                },
        )
    }

    /// The force between this fish and `other` as two school fish.
    pub fn compute_attraction(&self, other_fish: &Fish) -> (force: Vector)
        ensures
            force == self.pair_force(*other_fish),
    {
        let delta = other_fish.position.sub(self.position);
        let d2 = delta.squared_length();
        let reach: u128 = 40_000_000_000_000_000;
        if d2 > reach || d2 == 0 {
            return Vector { x: 0, y: 0 };
        }
        let attraction_force = delta.mul(ATTRACTION_FORCE_FACTOR);
        let alignment_force = other_fish.velocity.sub(self.velocity).mul(ALIGNMENT_FORCE_FACTOR);
        let repulsion_force = pushed_away(delta, d2, REPULSION_FORCE_FACTOR);
        attraction_force.add(alignment_force).add(repulsion_force)
    }

    /// The force with which `predator` drives this fish away.
    pub fn compute_predator_repulsion(&self, predator: &Fish) -> (force: Vector)
        ensures
            force == self.flight(*predator),
    {
        let delta = predator.position.sub(self.position);
        let d2 = delta.squared_length();
        if d2 == 0 {
            return Vector { x: 0, y: 0 };
        }
        pushed_away(delta, d2, PREDATOR_REPULSION_FACTOR)
    }

    /// Whether `other` is no farther away than the visibility distance.
    pub fn can_see(&self, other: &Fish) -> (seen: bool)
        ensures
            seen == self.sees(*other),
    {
        let delta = other.position.sub(self.position);
        delta.squared_length() <= 40_000_000_000_000_000
    }

    /// The averaged force of the neighbours in sight.
    fn flock(&self, all: &Vec<Fish>) -> (force: Vector)
        ensures
            force == self.interaction(all@),
    {
        let mut wide_x: i128 = 0;
        let mut wide_y: i128 = 0;
        let mut in_sight: usize = 0;
        let mut i: usize = 0;
        while i < all.len()
            invariant
                i <= all.len(),
                wide_x == total_x(self.pulls(all@).take(i as int)),
                wide_y == total_y(self.pulls(all@).take(i as int)),
                in_sight == count_true(self.sightings(all@).take(i as int)),
                -(i as int) * 0x8000_0000_0000_0000 <= wide_x <= i * 0x8000_0000_0000_0000,
                -(i as int) * 0x8000_0000_0000_0000 <= wide_y <= i * 0x8000_0000_0000_0000,
            decreases all.len() - i,
        {
            proof {
                lemma_total_step(self.pulls(all@), i as int);
                lemma_count_step(self.sightings(all@), i as int);
            }
            let other = &all[i];
            if other.kind == FishKind::SchoolFish && other.id != self.id {
                let force = self.compute_attraction(other);
                wide_x = wide_x + force.x as i128;
                wide_y = wide_y + force.y as i128;
                if self.can_see(other) {
                    in_sight = in_sight + 1;
                }
            }
            i = i + 1;
        }
        assert(self.pulls(all@).take(i as int) =~= self.pulls(all@));
        assert(self.sightings(all@).take(i as int) =~= self.sightings(all@));
        if in_sight == 0 {
            Vector { x: 0, y: 0 }
        } else {
            Vector {
                x: saturate(quotient(wide_x, in_sight as i128)),
                y: saturate(quotient(wide_y, in_sight as i128)),
            }
        }
    }

    /// The averaged push of the predators.
    fn flee(&self, all: &Vec<Fish>) -> (force: Vector)
        ensures
            force == self.predator_repulsion(all@),
    {
        let mut wide_x: i128 = 0;
        let mut wide_y: i128 = 0;
        let mut hunters: usize = 0;
        let mut i: usize = 0;
        while i < all.len()
            invariant
                i <= all.len(),
                wide_x == total_x(self.threats(all@).take(i as int)),
                wide_y == total_y(self.threats(all@).take(i as int)),
                hunters == count_true(of_kind(all@, FishKind::Predator).take(i as int)),
                -(i as int) * 0x8000_0000_0000_0000 <= wide_x <= i * 0x8000_0000_0000_0000,
                -(i as int) * 0x8000_0000_0000_0000 <= wide_y <= i * 0x8000_0000_0000_0000,
            decreases all.len() - i,
        {
            proof {
                lemma_total_step(self.threats(all@), i as int);
                lemma_count_step(of_kind(all@, FishKind::Predator), i as int);
            }
            let other = &all[i];
            if other.kind == FishKind::Predator {
                let force = self.compute_predator_repulsion(other);
                wide_x = wide_x + force.x as i128;
                wide_y = wide_y + force.y as i128;
                hunters = hunters + 1;
            }
            i = i + 1;
        }
        assert(self.threats(all@).take(i as int) =~= self.threats(all@));
        assert(of_kind(all@, FishKind::Predator).take(i as int) =~= of_kind(
            all@,
            FishKind::Predator,
        ));
        if hunters == 0 {
            Vector { x: 0, y: 0 }
        } else {
            Vector {
                x: saturate(quotient(wide_x, hunters as i128)),
                y: saturate(quotient(wide_y, hunters as i128)),
            }
        }
    }

    /// The pull toward the centre of the school.
    fn pursue(&self, all: &Vec<Fish>) -> (force: Vector)
        ensures
            force == self.pursuit(all@),
    {
        let mut wide_x: i128 = 0;
        let mut wide_y: i128 = 0;
        let mut school: usize = 0;
        let mut i: usize = 0;
        while i < all.len()
            invariant
                i <= all.len(),
                wide_x == total_x(school_positions(all@).take(i as int)),
                wide_y == total_y(school_positions(all@).take(i as int)),
                school == count_true(of_kind(all@, FishKind::SchoolFish).take(i as int)),
                -(i as int) * 0x8000_0000_0000_0000 <= wide_x <= i * 0x8000_0000_0000_0000,
                -(i as int) * 0x8000_0000_0000_0000 <= wide_y <= i * 0x8000_0000_0000_0000,
            decreases all.len() - i,
        {
            proof {
                lemma_total_step(school_positions(all@), i as int);
                lemma_count_step(of_kind(all@, FishKind::SchoolFish), i as int);
            }
            let other = &all[i];
            if other.kind == FishKind::SchoolFish {
                wide_x = wide_x + other.position.x as i128;
                wide_y = wide_y + other.position.y as i128;
                school = school + 1;
            }
            i = i + 1;
        }
        assert(school_positions(all@).take(i as int) =~= school_positions(all@));
        assert(of_kind(all@, FishKind::SchoolFish).take(i as int) =~= of_kind(
            all@,
            FishKind::SchoolFish,
        ));
        if school == 0 {
            Vector { x: 0, y: 0 }
        } else {
            let centre = Vector {
                x: saturate(quotient(wide_x, school as i128)),
                y: saturate(quotient(wide_y, school as i128)),
            };
            centre.sub(self.position).mul(PREDATOR_ATTRACTION_FACTOR)
        }
    }

    /// The acceleration of this fish among `all_fishes`, which may hold the
    /// fish itself.
    pub fn acceleration(&self, all_fishes: &Vec<Fish>) -> (acceleration: Vector)
        ensures
            acceleration == self.acceleration_among(all_fishes@),
    {
        match self.kind {
            FishKind::Predator => self.pursue(all_fishes),
            FishKind::SchoolFish => {
                let predator_repulsion = self.flee(all_fishes);
                let other_fishes_interaction = self.flock(all_fishes);
                predator_repulsion.add(other_fishes_interaction)
            },
        }
    }

    /// Moves the fish to time `t` under `acceleration`.  The step is as long
    /// as `t` makes it, and may be nothing or run backward; a long step is not
    /// shortened, though it may throw a school apart.
    pub fn advance(&mut self, acceleration: Vector, t: i64)
        ensures
            *final(self) == old(self).moved(acceleration, t),
    {
        let dt = minus(t, self.t);
        self.position.add_assign(self.velocity.mul(dt));
        self.velocity.add_assign(acceleration.mul(dt));
        self.t = t;
    }

    /// Moves the fish to time `t` by what `all_fishes` do to it.  The others
    /// are read as they are in `all_fishes`, which is not changed.
    pub fn swim(&mut self, t: i64, all_fishes: &Vec<Fish>)
        ensures
            *final(self) == old(self).after(t, all_fishes@),
    {
        let acceleration = self.acceleration(all_fishes);
        self.advance(acceleration, t);
    }

    /// Draws the fish: its head, and its tail behind it.
    pub fn draw(&self, grid: &mut Grid)
        requires
            old(grid).wf(),
        ensures
            final(grid).wf(),
            final(grid).center == old(grid).center,
            final(grid).buffer@ == self.painted_on(old(grid).buffer@, old(grid).center),
    {
        let color = self.kind.color();
        let head_radius = self.kind.head_radius();
        let tail_length = self.kind.tail_length();
        let tail = self.position.sub(self.velocity.heading().mul(tail_length));
        grid.draw_circle(self.position.x, self.position.y, head_radius, color);
        grid.draw_line(self.position.x, self.position.y, tail.x, tail.y, color);
        proof {
            lemma_screen();
            assert(grid.buffer@ =~= self.painted_on(old(grid).buffer@, old(grid).center));
        }
    }
}

} // verus!

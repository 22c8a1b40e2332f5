//! What holds of the forces and of a step, for every fish and population.
use crate::fish::{centroid, of_kind, push_away, school_positions, Fish, FishKind};
use crate::fixed::{lemma_trunc_div_multiple, lemma_trunc_div_odd, UNIT};
use crate::shoal::Shoal;
use crate::vector::{count_true, total_x, total_y, Vector};
use vstd::prelude::*;

verus! {

/// The way back is the way there, turned round, and as long.
pub proof fn lemma_offset_mirrored(a: Fish, b: Fish)
    ensures
        a.offset_to(b).is_finite(),
        b.offset_to(a) == a.offset_to(b).negated(),
        b.offset_to(a).norm_squared() == a.offset_to(b).norm_squared(),
{
    let there = a.offset_to(b);
    let back = b.offset_to(a);
    assert(back.x == -there.x && back.y == -there.y);
    assert(back.x * back.x == there.x * there.x) by (nonlinear_arith)
        requires
            back.x == -there.x,
    ;
    assert(back.y * back.y == there.y * there.y) by (nonlinear_arith)
        requires
            back.y == -there.y,
    ;
}

/// Turning a vector round turns its multiples round.
pub proof fn lemma_scaled_mirrored(v: Vector, scalar: i64)
    requires
        v.is_finite(),
    ensures
        v.negated().scaled(scalar) == v.scaled(scalar).negated(),
{
    let w = v.negated();
    assert(w.x * scalar == -(v.x * scalar)) by (nonlinear_arith)
        requires
            w.x == -v.x,
    ;
    assert(w.y * scalar == -(v.y * scalar)) by (nonlinear_arith)
        requires
            w.y == -v.y,
    ;
    lemma_trunc_div_odd(v.x * scalar, UNIT as int);
    lemma_trunc_div_odd(v.y * scalar, UNIT as int);
}

/// Turning two vectors round turns their sum round.
pub proof fn lemma_plus_mirrored(u: Vector, v: Vector)
    requires
        u.is_finite(),
        v.is_finite(),
    ensures
        u.negated().plus(v.negated()) == u.plus(v).negated(),
{
}

/// Turning the offset round turns the push round.
pub proof fn lemma_push_away_mirrored(delta: Vector, factor: i64)
    requires
        delta.is_finite(),
    ensures
        push_away(delta.negated(), factor) == push_away(delta, factor).negated(),
{
    let strength = factor * UNIT;
    let back = delta.negated();
    let n = delta.norm_squared();
    assert(back.x == -delta.x && back.y == -delta.y);
    assert(back.x * back.x == delta.x * delta.x) by (nonlinear_arith)
        requires
            back.x == -delta.x,
    ;
    assert(back.y * back.y == delta.y * delta.y) by (nonlinear_arith)
        requires
            back.y == -delta.y,
    ;
    assert(delta.x * delta.x >= 0 && delta.y * delta.y >= 0) by (nonlinear_arith);
    if n != 0 {
        assert(-(back.x * strength) == -(-(delta.x * strength))) by (nonlinear_arith)
            requires
                back.x == -delta.x,
        ;
        assert(-(back.y * strength) == -(-(delta.y * strength))) by (nonlinear_arith)
            requires
                back.y == -delta.y,
        ;
        lemma_trunc_div_odd(-(delta.x * strength), n);
        lemma_trunc_div_odd(-(delta.y * strength), n);
    }
}

/// Action and reaction: the push that `b` gives `a` is the push that `a`
/// gives `b`, turned round.  It holds whatever the two fish are and wherever
/// they stand.
pub proof fn lemma_repulsion_mirrored(a: Fish, b: Fish)
    ensures
        a.repulsion(b) == b.repulsion(a).negated(),
        a.flight(b) == b.flight(a).negated(),
{
    lemma_offset_mirrored(b, a);
    lemma_push_away_mirrored(b.offset_to(a), crate::REPULSION_FORCE_FACTOR);
    lemma_push_away_mirrored(b.offset_to(a), crate::PREDATOR_REPULSION_FACTOR);
}

/// Action and reaction for the whole pair force: attraction, alignment and
/// repulsion together are mirrored too, and so is the test of sight.
pub proof fn lemma_pair_force_mirrored(a: Fish, b: Fish)
    ensures
        a.sees(b) == b.sees(a),
        a.coincides_with(b) == b.coincides_with(a),
        a.pair_force(b) == b.pair_force(a).negated(),
{
    lemma_offset_mirrored(b, a);
    lemma_repulsion_mirrored(a, b);
    lemma_scaled_mirrored(b.offset_to(a), crate::ATTRACTION_FORCE_FACTOR);
    assert(a.attraction(b) == b.attraction(a).negated());
    let against = a.velocity.minus(b.velocity);
    assert(b.velocity.minus(a.velocity) == against.negated());
    lemma_scaled_mirrored(against, crate::ALIGNMENT_FORCE_FACTOR);
    assert(a.alignment(b) == b.alignment(a).negated());
    lemma_plus_mirrored(b.attraction(a), b.alignment(a));
    lemma_plus_mirrored(b.attraction(a).plus(b.alignment(a)), b.repulsion(a));
}

/// Two fish at one place exert no force on each other, however they move.
pub proof fn lemma_same_place_no_force(a: Fish, b: Fish)
    requires
        a.position == b.position,
    ensures
        a.pair_force(b) == Vector::zero(),
        b.pair_force(a) == Vector::zero(),
        a.flight(b) == Vector::zero(),
        b.flight(a) == Vector::zero(),
{
    assert(a.offset_to(b) == Vector::zero());
    assert(b.offset_to(a) == Vector::zero());
    assert(Vector::zero().norm_squared() == 0) by (nonlinear_arith);
}

/// Sums over items of which the flagged ones are all `f` and the others zero.
proof fn lemma_total_of_flagged(items: Seq<Vector>, flags: Seq<bool>, f: Vector)
    requires
        items.len() == flags.len(),
        forall|i: int|
            0 <= i < items.len() ==> items[i] == if flags[i] {
                f
            } else {
                Vector::zero()
            },
    ensures
        total_x(items) == count_true(flags) * f.x,
        total_y(items) == count_true(flags) * f.y,
    decreases items.len(),
{
    if items.len() > 0 {
        lemma_total_of_flagged(items.drop_last(), flags.drop_last(), f);
        let c = count_true(flags.drop_last()) as int;
        assert((c + 1) * f.x == c * f.x + f.x && (c + 1) * f.y == c * f.y + f.y)
            by (nonlinear_arith);
    } else {
        assert(0 * f.x == 0 && 0 * f.y == 0) by (nonlinear_arith);
    }
}

/// Where a flag is counted, a flag is set.
proof fn lemma_counted_flag(flags: Seq<bool>) -> (i: int)
    requires
        count_true(flags) > 0,
    ensures
        0 <= i < flags.len(),
        flags[i],
    decreases flags.len(),
{
    if flags.last() {
        flags.len() - 1
    } else {
        lemma_counted_flag(flags.drop_last())
    }
}

/// Where fish at one place are all there is, a school fish feels no
/// interaction.
pub proof fn lemma_same_place_no_interaction(me: Fish, all: Seq<Fish>)
    requires
        forall|i: int| 0 <= i < all.len() ==> all[i].position == me.position,
    ensures
        me.interaction(all) == Vector::zero(),
{
    let flags = Seq::new(all.len(), |i: int| false);
    assert forall|i: int| 0 <= i < all.len() implies me.pulls(all)[i] == if flags[i] {
        Vector::zero()
    } else {
        Vector::zero()
    } by {
        lemma_same_place_no_force(me, all[i]);
    }
    lemma_total_of_flagged(me.pulls(all), flags, Vector::zero());
    assert(count_true(flags) * 0 == 0) by (nonlinear_arith);
}

/// The size of the school does not show in the interaction: where every
/// neighbour in sight exerts the same force `f`, and there is one at least,
/// the interaction is `f`, however many they are.
pub proof fn lemma_equal_forces_average_to_one(me: Fish, all: Seq<Fish>, f: Vector)
    requires
        count_true(me.sightings(all)) >= 1,
        forall|i: int|
            0 <= i < all.len() && me.is_neighbour(all[i]) && me.sees(all[i]) ==> me.pair_force(
                all[i],
            ) == f,
    ensures
        me.interaction(all) == f,
{
    let flags = me.sightings(all);
    let items = me.pulls(all);
    let n = count_true(flags) as int;
    let witness = lemma_counted_flag(flags);
    assert(f == me.pair_force(all[witness]));
    assert(f.is_finite());
    lemma_total_of_flagged(items, flags, f);
    assert(n * f.x == f.x * n && n * f.y == f.y * n) by (nonlinear_arith);
    lemma_trunc_div_multiple(f.x as int, n);
    lemma_trunc_div_multiple(f.y as int, n);
}

/// Where all the school fish are at one place, that place is the centre of
/// the school, and a predator is drawn straight to it.
pub proof fn lemma_gathered_school(me: Fish, all: Seq<Fish>, place: Vector)
    requires
        count_true(of_kind(all, FishKind::SchoolFish)) >= 1,
        forall|i: int|
            0 <= i < all.len() && all[i].kind == FishKind::SchoolFish ==> all[i].position
                == place,
        place.is_finite(),
    ensures
        centroid(all) == place,
        me.pursuit(all) == place.minus(me.position).scaled(crate::PREDATOR_ATTRACTION_FACTOR),
{
    let flags = of_kind(all, FishKind::SchoolFish);
    let n = count_true(flags) as int;
    lemma_total_of_flagged(school_positions(all), flags, place);
    assert(n * place.x == place.x * n && n * place.y == place.y * n) by (nonlinear_arith);
    lemma_trunc_div_multiple(place.x as int, n);
    lemma_trunc_div_multiple(place.y as int, n);
}

/// Without predators a school fish is moved by its neighbours alone.
pub proof fn lemma_no_predator_no_flight(me: Fish, all: Seq<Fish>)
    requires
        me.kind == FishKind::SchoolFish,
        count_true(of_kind(all, FishKind::Predator)) == 0,
    ensures
        me.predator_repulsion(all) == Vector::zero(),
        me.acceleration_among(all) == me.interaction(all),
{
}

/// A step that takes no time leaves position and velocity as they were,
/// whatever the acceleration.
pub proof fn lemma_no_time_no_motion(me: Fish, acceleration: Vector)
    requires
        me.is_valid(),
    ensures
        me.moved(acceleration, me.t) == me,
{
    let dt = crate::fixed::difference(me.t, me.t);
    assert(dt == 0);
    assert(me.velocity.x * 0 == 0 && me.velocity.y * 0 == 0 && acceleration.x * 0 == 0
        && acceleration.y * 0 == 0) by (nonlinear_arith);
}

/// A step to the time that every fish is at already changes nothing.
pub proof fn lemma_still_shoal(shoal: Shoal, t: i64)
    requires
        forall|i: int|
            0 <= i < shoal.fishes@.len() ==> (#[trigger] shoal.fishes@[i]).is_valid()
                && shoal.fishes@[i].t == t,
    ensures
        shoal.stepped(t) == shoal.fishes@,
{
    assert forall|i: int| 0 <= i < shoal.fishes@.len() implies shoal.stepped(t)[i]
        == shoal.fishes@[i] by {
        let me = shoal.fishes@[i];
        lemma_no_time_no_motion(me, me.acceleration_among(shoal.fishes@));
    }
    assert(shoal.stepped(t) =~= shoal.fishes@);
}

/// A step keeps name and kind, sets the time, and hands out a valid fish.
pub proof fn lemma_step_keeps_identity(me: Fish, t: i64, all: Seq<Fish>)
    ensures
        me.after(t, all).id == me.id,
        me.after(t, all).kind == me.kind,
        me.after(t, all).t == t,
        me.after(t, all).is_valid(),
{
}

} // verus!

use shoal::fish::{Fish, FishKind};
use shoal::vector::Vector;

const U: i64 = 1_000_000;

fn school_fish(id: u128, x: i64, y: i64) -> Fish {
    Fish {
        id,
        position: Vector { x: x * U, y: y * U },
        velocity: Vector { x: 0, y: 0 },
        t: 0,
        kind: FishKind::SchoolFish,
    }
}

fn predator(id: u128, x: i64, y: i64) -> Fish {
    Fish { kind: FishKind::Predator, ..school_fish(id, x, y) }
}

fn turned(v: Vector) -> Vector {
    Vector { x: -v.x, y: -v.y }
}

#[test]
fn pair_force_has_its_three_terms() {
    let a = school_fish(1, 0, 0);
    let b = school_fish(2, 10, 0);
    // attraction 20 * 10, repulsion -10 * 200000 / 100, no alignment
    assert_eq!(a.compute_attraction(&b), Vector { x: -19_800 * U, y: 0 });
}

#[test]
fn alignment_follows_the_difference_of_velocities() {
    let a = school_fish(1, 0, 0);
    let mut b = school_fish(2, 0, 10);
    b.velocity = Vector { x: 3 * U, y: -2 * U };
    // along y: attraction 200, repulsion -20000, alignment 100 * -2
    assert_eq!(a.compute_attraction(&b), Vector { x: 300 * U, y: -20_000 * U });
}

#[test]
fn pair_force_rounds_toward_zero() {
    let a = school_fish(1, 0, 0);
    let b = school_fish(2, 3, 0);
    // 60 - 66666.666666...
    assert_eq!(a.compute_attraction(&b), Vector { x: -66_606_666_666, y: 0 });
    assert_eq!(b.compute_attraction(&a), Vector { x: 66_606_666_666, y: 0 });
}

#[test]
fn forces_of_two_fish_are_mirrored() {
    let mut a = school_fish(1, -7, 31);
    let mut b = school_fish(2, 64, -12);
    a.velocity = Vector { x: 5 * U + 1, y: -3 };
    b.velocity = Vector { x: -9 * U, y: 77 * U + 13 };
    let on_a = a.compute_attraction(&b);
    let on_b = b.compute_attraction(&a);
    assert_ne!(on_a, Vector { x: 0, y: 0 });
    assert_eq!(on_a, turned(on_b));
    assert_eq!(a.compute_predator_repulsion(&b), turned(b.compute_predator_repulsion(&a)));
}

#[test]
fn repulsion_alone_is_mirrored() {
    // with the same velocity and the pull taken off, the push is left
    let a = school_fish(1, 0, 0);
    let b = school_fish(2, 3, 4);
    let pull = Vector { x: 60 * U, y: 80 * U };
    let push_on_a = a.compute_attraction(&b).sub(pull);
    let push_on_b = b.compute_attraction(&a).sub(turned(pull));
    assert_eq!(push_on_a, Vector { x: -24_000 * U, y: -32_000 * U });
    assert_eq!(push_on_b, Vector { x: 24_000 * U, y: 32_000 * U });
}

#[test]
fn fish_at_one_place_exert_no_force() {
    let mut a = school_fish(1, 12, 34);
    let mut b = school_fish(2, 12, 34);
    a.velocity = Vector { x: 100 * U, y: 0 };
    b.velocity = Vector { x: 0, y: -100 * U };
    assert_eq!(a.compute_attraction(&b), Vector { x: 0, y: 0 });
    assert_eq!(b.compute_attraction(&a), Vector { x: 0, y: 0 });
    let all = vec![a, b];
    assert_eq!(a.acceleration(&all), Vector { x: 0, y: 0 });
    assert_eq!(b.acceleration(&all), Vector { x: 0, y: 0 });
}

#[test]
fn sight_ends_beyond_the_visibility_distance() {
    let a = school_fish(1, 0, 0);
    let at_the_edge = school_fish(2, 200, 0);
    let mut beyond = at_the_edge;
    beyond.position.x += 1;
    assert!(a.can_see(&at_the_edge));
    assert!(!a.can_see(&beyond));
    // attraction 4000, repulsion -1000
    assert_eq!(a.compute_attraction(&at_the_edge), Vector { x: 3_000 * U, y: 0 });
    assert_eq!(a.compute_attraction(&beyond), Vector { x: 0, y: 0 });
}

#[test]
fn predator_drives_a_fish_away() {
    let a = school_fish(1, 0, 0);
    let p = predator(2, 10, 0);
    // -10 * 5000000 / 100
    assert_eq!(a.compute_predator_repulsion(&p), Vector { x: -500_000 * U, y: 0 });
    let far = predator(3, 0, -1000);
    assert_eq!(a.compute_predator_repulsion(&far), Vector { x: 0, y: 5_000 * U });
}

#[test]
fn predator_at_the_same_place_exerts_no_force() {
    let a = school_fish(1, 5, 5);
    let p = predator(2, 5, 5);
    assert_eq!(a.compute_predator_repulsion(&p), Vector { x: 0, y: 0 });
    assert_eq!(a.acceleration(&vec![a, p]), Vector { x: 0, y: 0 });
}

#[test]
fn interaction_does_not_depend_on_the_size_of_the_school() {
    let me = school_fish(1, 0, 0);
    let one = me.compute_attraction(&school_fish(2, 10, 0));
    assert_eq!(one, Vector { x: -19_800 * U, y: 0 });
    let mut all = vec![me];
    for n in 2..=6 {
        all.push(school_fish(n, 10, 0));
        assert_eq!(me.acceleration(&all), one);
    }
}

#[test]
fn interaction_is_averaged_over_the_neighbours_in_sight() {
    let me = school_fish(1, 0, 0);
    let near = school_fish(2, 10, 0);
    let other = school_fish(3, 0, 20);
    let out_of_sight = school_fish(4, 500, 500);
    // (-19800, 0) and (0, 400 - 10000), over two
    assert_eq!(
        me.acceleration(&vec![near, out_of_sight, me, other]),
        Vector { x: -9_900 * U, y: -4_800 * U }
    );
}

#[test]
fn a_fish_does_not_act_on_itself() {
    let me = school_fish(1, 0, 0);
    let namesake = school_fish(1, 10, 0);
    assert_eq!(me.acceleration(&vec![me]), Vector { x: 0, y: 0 });
    assert_eq!(me.acceleration(&vec![me, namesake]), Vector { x: 0, y: 0 });
    assert_eq!(me.acceleration(&vec![]), Vector { x: 0, y: 0 });
}

#[test]
fn predator_is_drawn_to_the_centre_of_the_school() {
    let hunter = predator(1, 100, 0);
    let prey = school_fish(2, 0, 0);
    assert_eq!(hunter.acceleration(&vec![prey, hunter]), Vector { x: -100 * U, y: 0 });
    let second = school_fish(3, 50, 90);
    // centre (25, 45)
    assert_eq!(
        hunter.acceleration(&vec![prey, hunter, second]),
        Vector { x: -75 * U, y: 45 * U }
    );
}

#[test]
fn predator_without_a_school_stays_its_course() {
    let hunter = predator(1, 100, 0);
    assert_eq!(hunter.acceleration(&vec![hunter]), Vector { x: 0, y: 0 });
    assert_eq!(hunter.acceleration(&vec![hunter, predator(2, 3, 3)]), Vector { x: 0, y: 0 });
}

#[test]
fn without_predators_only_the_neighbours_count() {
    let me = school_fish(1, 0, 0);
    let near = school_fish(2, 10, 0);
    assert_eq!(me.acceleration(&vec![me, near]), me.compute_attraction(&near));
}

#[test]
fn pushes_of_predators_are_averaged_and_added() {
    let me = school_fish(1, 0, 0);
    let near = school_fish(2, 10, 0);
    let p = predator(3, 10, 0);
    let q = predator(4, 0, -1000);
    // (-500000, 0) and (0, 5000) over two, plus (-19800, 0)
    assert_eq!(
        me.acceleration(&vec![me, near, p, q]),
        Vector { x: -269_800 * U, y: 2_500 * U }
    );
}

use shoal::fish::{Fish, FishKind};
use shoal::shoal::Shoal;
use shoal::vector::Vector;
use shoal::{HEIGHT, INITIAL_SPEED, WIDTH};

const U: i64 = 1_000_000;

fn fish(id: u128, kind: FishKind, x: i64, y: i64, vx: i64, vy: i64, t: i64) -> Fish {
    Fish {
        id,
        position: Vector { x: x * U, y: y * U },
        velocity: Vector { x: vx * U, y: vy * U },
        t,
        kind,
    }
}

#[test]
fn position_moves_by_the_velocity_before_the_step() {
    let mut f = fish(1, FishKind::SchoolFish, 0, 0, 10, 0, 0);
    f.advance(Vector { x: 0, y: 5 * U }, U);
    assert_eq!(f.position, Vector { x: 10 * U, y: 0 });
    assert_eq!(f.velocity, Vector { x: 10 * U, y: 5 * U });
    assert_eq!(f.t, U);
}

#[test]
fn a_step_may_be_short_or_run_backward() {
    let mut f = fish(1, FishKind::SchoolFish, 1, 1, 10, -4, 2 * U);
    f.advance(Vector { x: 2 * U, y: 0 }, 2 * U + 500_000);
    assert_eq!(f.position, Vector { x: 6 * U, y: -U });
    assert_eq!(f.velocity, Vector { x: 11 * U, y: -4 * U });
    f.advance(Vector { x: 0, y: 0 }, 2 * U);
    assert_eq!(f.position, Vector { x: 500_000, y: U });
}

#[test]
fn a_step_of_no_time_changes_nothing() {
    let mut shoal = Shoal {
        fishes: vec![
            fish(1, FishKind::SchoolFish, 0, 0, 10, 0, 7 * U),
            fish(2, FishKind::SchoolFish, 10, 0, -3, 4, 7 * U),
            fish(3, FishKind::Predator, 40, 40, 0, 9, 7 * U),
        ],
    };
    let before = shoal.fishes.clone();
    shoal.swim(7 * U);
    assert_eq!(shoal.fishes, before);
}

#[test]
fn swim_is_acceleration_then_advance() {
    let me = fish(1, FishKind::SchoolFish, 0, 0, 10, 0, 0);
    let near = fish(2, FishKind::SchoolFish, 10, 0, 10, 0, 0);
    let all = vec![me, near];
    let mut moved = me;
    moved.swim(U / 10, &all);
    // acceleration (-19800, 0) for a tenth of a second
    assert_eq!(moved.position, Vector { x: U, y: 0 });
    assert_eq!(moved.velocity, Vector { x: -1_970 * U, y: 0 });
    assert_eq!(moved.t, U / 10);
    assert_eq!(moved.id, 1);
    assert_eq!(moved.kind, FishKind::SchoolFish);
}

#[test]
fn every_fish_is_moved_by_the_others_as_they_were() {
    let a = fish(1, FishKind::SchoolFish, 0, 0, 10, 0, 0);
    let b = fish(2, FishKind::SchoolFish, 10, 0, -10, 0, 0);
    let c = fish(3, FishKind::Predator, 30, 30, 0, 0, 0);
    let before = vec![a, b, c];
    let mut shoal = Shoal { fishes: before.clone() };
    shoal.swim(U);
    for (i, old) in before.iter().enumerate() {
        let mut alone = *old;
        alone.swim(U, &before);
        assert_eq!(shoal.fishes[i], alone);
    }
    // the first has moved ten to the right, and the second was pushed from where it had been
    assert_eq!(shoal.fishes[0].position, Vector { x: 10 * U, y: 0 });
    assert_eq!(shoal.fishes[1].position, Vector { x: 0, y: 0 });
}

#[test]
fn values_stick_to_the_limit() {
    let mut f = fish(1, FishKind::SchoolFish, 0, 0, 0, 0, 0);
    f.position.x = i64::MAX - 5;
    f.velocity.x = i64::MAX;
    f.advance(Vector { x: i64::MAX, y: i64::MIN }, 2 * U);
    assert_eq!(f.position, Vector { x: i64::MAX, y: 0 });
    assert_eq!(f.velocity, Vector { x: i64::MAX, y: -i64::MAX });
}

#[test]
fn a_new_population_is_school_first_then_predators() {
    let shoal = Shoal::new(5, 2);
    assert_eq!(shoal.fishes.len(), 7);
    for (i, f) in shoal.fishes.iter().enumerate() {
        let kind = if i < 5 { FishKind::SchoolFish } else { FishKind::Predator };
        assert_eq!(f.kind, kind);
        assert_eq!(f.velocity, Vector { x: INITIAL_SPEED, y: 0 });
        assert_eq!(f.t, 0);
    }
    assert!(Shoal::new(0, 0).fishes.is_empty());
}

#[test]
fn new_fish_stand_on_whole_places_in_the_lower_quarter() {
    for _ in 0..200 {
        let f = Fish::create_initial_state(FishKind::SchoolFish);
        assert!(0 <= f.position.x && f.position.x < (WIDTH as i64 / 2) * U);
        assert!(0 <= f.position.y && f.position.y < (HEIGHT as i64 / 2) * U);
        assert_eq!(f.position.x % U, 0);
        assert_eq!(f.position.y % U, 0);
    }
}

#[test]
fn new_fish_are_not_all_at_one_place() {
    let shoal = Shoal::new(50, 0);
    let first = shoal.fishes[0].position;
    assert!(shoal.fishes.iter().any(|f| f.position != first));
}

#[test]
fn new_fish_carry_random_names() {
    let a = Fish::create_initial_state(FishKind::Predator);
    let b = Fish::create_initial_state(FishKind::Predator);
    assert_ne!(a.id, b.id);
    for f in [a, b] {
        assert_eq!((f.id >> 76) & 0xf, 4);
        assert_eq!((f.id >> 62) & 0x3, 2);
    }
}

use shoal::fish::{Fish, FishKind};
use shoal::grid::{round_to_whole, whole, Grid};
use shoal::shoal::{Agent, Shoal};
use shoal::vector::Vector;
use shoal::{BACKGROUND_COLOR, GRID_COLOR, HEIGHT, WIDTH};

const U: i64 = 1_000_000;
const RED: u32 = 0xff0000;

/// The pixels that are not of the background colour, as (column, row).
fn lit(grid: &Grid) -> Vec<(usize, usize)> {
    let mut found = Vec::new();
    for (k, colour) in grid.buffer.iter().enumerate() {
        if *colour != BACKGROUND_COLOR {
            found.push((k % WIDTH, k / WIDTH));
        }
    }
    found
}

/// The pixel that shows the whole-numbered place of the world, seen from the origin.
fn shown(x: i64, y: i64) -> (usize, usize) {
    ((x + 960) as usize, (y + 540) as usize)
}

/// The line as the classic loop walks it, one step at a time.
fn walked(mut x1: i64, mut y1: i64, x2: i64, y2: i64) -> Vec<(i64, i64)> {
    let dx = (x2 - x1).abs();
    let dy = (y2 - y1).abs();
    let sx = if x1 < x2 { 1 } else { -1 };
    let sy = if y1 < y2 { 1 } else { -1 };
    let mut err = dx - dy;
    let mut points = Vec::new();
    loop {
        points.push((x1, y1));
        if x1 == x2 && y1 == y2 {
            break;
        }
        let e2 = 2 * err;
        if e2 > -dy {
            err -= dy;
            x1 += sx;
        }
        if e2 < dx {
            err += dx;
            y1 += sy;
        }
    }
    points
}

fn sorted(mut pixels: Vec<(usize, usize)>) -> Vec<(usize, usize)> {
    pixels.sort();
    pixels.dedup();
    pixels
}

#[test]
fn a_new_picture_is_empty() {
    let grid = Grid::new();
    assert_eq!(grid.buffer.len(), WIDTH * HEIGHT);
    assert_eq!(grid.center, Vector { x: 0, y: 0 });
    assert!(lit(&grid).is_empty());
}

#[test]
fn quantities_round_to_the_nearest_whole() {
    assert_eq!(round_to_whole(0), 0);
    assert_eq!(round_to_whole(499_999), 0);
    assert_eq!(round_to_whole(500_000), 1);
    assert_eq!(round_to_whole(-499_999), 0);
    assert_eq!(round_to_whole(-500_000), -1);
    assert_eq!(round_to_whole(-1_500_000), -2);
    assert_eq!(round_to_whole(2_400_000), 2);
    assert_eq!(round_to_whole(i64::MAX), 9_223_372_036_855);
    assert_eq!(round_to_whole(i64::MIN), -9_223_372_036_855);
}

#[test]
fn whole_parts_are_cut_and_kept_within_32_bits() {
    assert_eq!(whole(2_999_999), 2);
    assert_eq!(whole(-2_999_999), -2);
    assert_eq!(whole(-1), 0);
    assert_eq!(whole(i64::MAX), i32::MAX as i64);
    assert_eq!(whole(i64::MIN), i32::MIN as i64);
}

#[test]
fn a_dot_lands_on_the_pixel_that_shows_its_place() {
    let mut grid = Grid::new();
    grid.draw_dot(0, 0, RED);
    assert_eq!(lit(&grid), vec![(960, 540)]);
    grid.clear();
    grid.draw_dot(-960 * U, -540 * U, RED);
    grid.draw_dot(959 * U, 539 * U, RED);
    assert_eq!(lit(&grid), vec![(0, 0), (1919, 1079)]);
    assert_eq!(grid.buffer[0], RED);
}

#[test]
fn a_dot_goes_to_the_nearest_pixel() {
    let mut grid = Grid::new();
    // the row is rounded as counted from the top of the picture: 536.5 becomes 537
    grid.draw_dot(10 * U + 499_999, -3 * U - 500_000, RED);
    assert_eq!(lit(&grid), vec![shown(10, -3)]);
    grid.clear();
    grid.draw_dot(10 * U + 500_000, -3 * U - 500_001, RED);
    assert_eq!(lit(&grid), vec![shown(11, -4)]);
    grid.clear();
    // seen from the left edge a half goes up, seen from beyond it goes down
    grid.draw_dot(-960 * U - 500_000, 0, RED);
    assert_eq!(lit(&grid), vec![]);
    grid.draw_dot(-960 * U - 499_999, 0, RED);
    assert_eq!(lit(&grid), vec![(0, 540)]);
}

#[test]
fn a_dot_outside_the_picture_changes_nothing() {
    let mut grid = Grid::new();
    grid.draw_dot(960 * U, 0, RED);
    grid.draw_dot(0, 540 * U, RED);
    grid.draw_dot(-961 * U, 0, RED);
    grid.draw_dot(0, -541 * U, RED);
    grid.draw_dot(i64::MAX, i64::MIN, RED);
    assert!(lit(&grid).is_empty());
}

#[test]
fn the_picture_follows_its_centre() {
    let mut grid = Grid::new();
    grid.center = Vector { x: 100 * U, y: -50 * U };
    grid.draw_dot(100 * U, -50 * U, RED);
    grid.draw_dot(0, 0, RED);
    assert_eq!(sorted(lit(&grid)), vec![(860, 590), (960, 540)]);
}

#[test]
fn clear_wipes_every_pixel() {
    let mut grid = Grid::new();
    grid.center = Vector { x: 7, y: 8 };
    grid.draw_circle(0, 0, 4, RED);
    assert!(!lit(&grid).is_empty());
    grid.clear();
    assert!(lit(&grid).is_empty());
    assert_eq!(grid.center, Vector { x: 7, y: 8 });
}

#[test]
fn a_circle_is_a_filled_disc() {
    let mut grid = Grid::new();
    grid.draw_circle(0, 0, 0, RED);
    assert_eq!(lit(&grid), vec![(960, 540)]);
    grid.clear();
    grid.draw_circle(0, 0, 1, RED);
    assert_eq!(
        sorted(lit(&grid)),
        sorted(vec![shown(0, 0), shown(1, 0), shown(-1, 0), shown(0, 1), shown(0, -1)])
    );
    grid.clear();
    grid.draw_circle(20 * U, -7 * U, 3, RED);
    let mut expected = Vec::new();
    for dx in -3i64..=3 {
        for dy in -3i64..=3 {
            if dx * dx + dy * dy <= 9 {
                expected.push(shown(20 + dx, -7 + dy));
            }
        }
    }
    assert_eq!(expected.len(), 29);
    assert_eq!(sorted(lit(&grid)), sorted(expected));
}

#[test]
fn a_circle_is_cut_at_the_edge() {
    let mut grid = Grid::new();
    grid.draw_circle(-960 * U, -540 * U, 2, RED);
    assert_eq!(
        sorted(lit(&grid)),
        vec![(0, 0), (0, 1), (0, 2), (1, 0), (1, 1), (2, 0)]
    );
}

#[test]
fn a_line_takes_the_pixels_nearest_to_it() {
    let mut grid = Grid::new();
    grid.draw_line(0, 0, 5 * U, 2 * U, RED);
    assert_eq!(
        sorted(lit(&grid)),
        sorted(vec![
            shown(0, 0),
            shown(1, 0),
            shown(2, 1),
            shown(3, 1),
            shown(4, 2),
            shown(5, 2)
        ])
    );
}

#[test]
fn a_line_may_be_a_point_or_run_along_an_axis() {
    let mut grid = Grid::new();
    grid.draw_line(3 * U, 3 * U, 3 * U + 999_999, 3 * U, RED);
    assert_eq!(lit(&grid), vec![shown(3, 3)]);
    grid.clear();
    // the ends are cut to their whole parts, toward zero
    grid.draw_line(-3 * U - 999_999, -999_999, -U + 1, 999_999, RED);
    assert_eq!(sorted(lit(&grid)), sorted(vec![shown(-3, 0), shown(-2, 0), shown(-1, 0), shown(0, 0)]));
    grid.clear();
    grid.draw_line(-2 * U, 5 * U, 2 * U, 5 * U, RED);
    assert_eq!(
        sorted(lit(&grid)),
        sorted((-2..=2).map(|x| shown(x, 5)).collect())
    );
    grid.clear();
    grid.draw_line(7 * U, 1 * U, 7 * U, -3 * U, RED);
    assert_eq!(
        sorted(lit(&grid)),
        sorted((-3..=1).map(|y| shown(7, y)).collect())
    );
}

#[test]
fn a_line_is_what_the_classic_loop_walks() {
    let ends = [
        (0, 0, 10, 3),
        (0, 0, 3, 10),
        (0, 0, -10, 3),
        (0, 0, 10, -3),
        (5, -5, -7, -12),
        (-20, 14, 13, -9),
        (0, 0, 9, 9),
        (0, 0, -9, 9),
        (2, 3, 2, 3),
        (0, 0, 12, 6),
        (0, 0, 6, 12),
        (0, 0, 7, 1),
        (0, 0, 1, 7),
        (-3, 40, 90, 41),
        (100, 100, 0, 37),
    ];
    for (x1, y1, x2, y2) in ends {
        let mut grid = Grid::new();
        grid.draw_line(x1 * U, y1 * U, x2 * U, y2 * U, RED);
        let expected = walked(x1, y1, x2, y2)
            .into_iter()
            .map(|(x, y)| shown(x, y))
            .collect();
        assert_eq!(sorted(lit(&grid)), sorted(expected), "{:?}", (x1, y1, x2, y2));
    }
}

#[test]
fn a_line_leaves_the_picture_and_comes_to_an_end() {
    let mut grid = Grid::new();
    grid.draw_line(950 * U, 0, 2_000 * U, 0, RED);
    assert_eq!(
        sorted(lit(&grid)),
        sorted((950..960).map(|x| shown(x, 0)).collect())
    );
}

#[test]
fn the_grid_marks_every_eighth_unit_of_its_lines() {
    let mut grid = Grid::new();
    grid.draw_grid();
    let mut expected = Vec::new();
    for x in (-960i64..960).filter(|x| x % 8 == 0) {
        expected.push(shown(x, 0));
    }
    for y in (-540i64..540).filter(|y| y % 8 == 0) {
        expected.push(shown(0, y));
    }
    assert_eq!(sorted(lit(&grid)), sorted(expected));
    assert_eq!(grid.buffer[540 * WIDTH + 960], GRID_COLOR);
}

#[test]
fn the_grid_stays_in_the_world_when_the_picture_moves() {
    let mut grid = Grid::new();
    grid.center = Vector { x: 100 * U, y: -700 * U };
    grid.draw_grid();
    // shown: x from -860 to 1060, y from -1240 to -160; lines at x = 0 and 960, y = -1080 and -540
    let place = |x: i64, y: i64| ((x - 100 + 960) as usize, (y + 700 + 540) as usize);
    let mut expected = Vec::new();
    for x in (-860i64..1060).filter(|x| x % 8 == 0) {
        expected.push(place(x, -1080));
        expected.push(place(x, -540));
    }
    for y in (-1240i64..-160).filter(|y| y % 8 == 0) {
        expected.push(place(0, y));
        expected.push(place(960, y));
    }
    assert_eq!(sorted(lit(&grid)), sorted(expected));
}

#[test]
fn the_centre_moves_to_the_mean_position() {
    let fish = |x: i64, y: i64| Fish {
        id: 0,
        position: Vector { x, y },
        velocity: Vector { x: 0, y: 0 },
        t: 0,
        kind: FishKind::SchoolFish,
    };
    let mut grid = Grid::new();
    grid.draw_dot(0, 0, RED);
    grid.center_screen(&vec![fish(10, 0), fish(20, -7), fish(-1, 0)]);
    assert_eq!(grid.center, Vector { x: 9, y: -2 });
    assert_eq!(lit(&grid), vec![(960, 540)]);
    grid.center_screen(&vec![]);
    assert_eq!(grid.center, Vector { x: 9, y: -2 });
}

#[test]
fn a_fish_is_a_head_with_a_tail_behind() {
    let fish = Fish {
        id: 1,
        position: Vector { x: 10 * U, y: 20 * U },
        velocity: Vector { x: 0, y: -50 * U },
        t: 0,
        kind: FishKind::SchoolFish,
    };
    let mut grid = Grid::new();
    fish.draw(&mut grid);
    let mut expected = Vec::new();
    for dx in -3i64..=3 {
        for dy in -3i64..=3 {
            if dx * dx + dy * dy <= 9 {
                expected.push(shown(10 + dx, 20 + dy));
            }
        }
    }
    // it swims up, so the tail of eight hangs down
    for dy in 0..=8 {
        expected.push(shown(10, 20 + dy));
    }
    assert_eq!(sorted(lit(&grid)), sorted(expected));
    assert_eq!(grid.buffer[(20 + 540) * WIDTH + 10 + 960], 0xfffffff);
}

#[test]
fn a_fish_at_rest_heads_along_the_first_axis() {
    let hunter = Fish {
        id: 1,
        position: Vector { x: 0, y: 0 },
        velocity: Vector { x: 0, y: 0 },
        t: 0,
        kind: FishKind::Predator,
    };
    let mut grid = Grid::new();
    hunter.draw(&mut grid);
    assert_eq!(lit(&grid).len(), 81 + 10);
    assert_eq!(grid.buffer[540 * WIDTH + 960 - 15], RED);
    assert_eq!(grid.buffer[540 * WIDTH + 960 - 16], BACKGROUND_COLOR);
    assert_eq!(grid.buffer[540 * WIDTH + 960 + 6], BACKGROUND_COLOR);
}

#[test]
fn later_fish_are_drawn_over_earlier_ones() {
    let at = |kind: FishKind| Fish {
        id: 1,
        position: Vector { x: 0, y: 0 },
        velocity: Vector { x: U, y: 0 },
        t: 0,
        kind,
    };
    let shoal = Shoal { fishes: vec![at(FishKind::Predator), at(FishKind::SchoolFish)] };
    let mut grid = Grid::new();
    shoal.draw(&mut grid);
    assert_eq!(grid.buffer[540 * WIDTH + 960], 0xfffffff);
    assert_eq!(grid.buffer[540 * WIDTH + 960 + 5], RED);
    assert_eq!(grid.buffer[540 * WIDTH + 960 - 8], 0xfffffff);
    assert_eq!(grid.buffer[540 * WIDTH + 960 - 9], RED);
    let other_way = Shoal { fishes: vec![at(FishKind::SchoolFish), at(FishKind::Predator)] };
    grid.clear();
    other_way.draw(&mut grid);
    assert_eq!(grid.buffer[540 * WIDTH + 960], RED);
    assert!(lit(&grid).iter().all(|(c, r)| grid.buffer[r * WIDTH + c] == RED));
}

#[test]
fn agents_tell_place_heading_and_kind() {
    let shoal = Shoal {
        fishes: vec![
            Fish {
                id: 1,
                position: Vector { x: 5, y: 6 },
                velocity: Vector { x: 30 * U, y: -40 * U },
                t: 0,
                kind: FishKind::SchoolFish,
            },
            Fish {
                id: 2,
                position: Vector { x: -1, y: 0 },
                velocity: Vector { x: 0, y: 0 },
                t: 0,
                kind: FishKind::Predator,
            },
        ],
    };
    assert_eq!(
        shoal.agents(),
        vec![
            Agent {
                position: Vector { x: 5, y: 6 },
                heading: Vector { x: 600_000, y: -800_000 },
                kind: FishKind::SchoolFish
            },
            Agent {
                position: Vector { x: -1, y: 0 },
                heading: Vector { x: U, y: 0 },
                kind: FishKind::Predator
            },
        ]
    );
    assert_eq!(HEIGHT, 1080);
}

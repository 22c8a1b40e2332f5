//! The picture: a buffer of pixels, and the place in the world that its
//! middle shows.
use crate::fish::Fish;
use crate::fixed::{
    clamp, difference, lemma_unit_multiple, minus, plus, quotient, saturate, sum, trunc_div, UNIT,
};
use crate::vector::{lemma_total_step, mean, total_x, total_y, Vector};
use crate::{BACKGROUND_COLOR, GRID_COLOR, GRID_DOT_SPACING, HEIGHT, WIDTH};
use vstd::prelude::*;

verus! {

/// The whole number nearest to the quantity `v`; a half goes away from zero.
pub open spec fn nearest_whole(v: i64) -> int {
    if v >= 0 {
        (v + UNIT / 2) / (UNIT as int)
    } else {
        -((-v + UNIT / 2) / (UNIT as int))
    }
}

/// The column of the picture that shows the world's `x`, where the middle
/// of the picture shows `center_x`.
pub open spec fn column(center_x: i64, x: i64) -> int {
    nearest_whole(sum(difference(x, center_x), ((WIDTH / 2) * UNIT) as i64))
}

/// The row of the picture that shows the world's `y`, where the middle of
/// the picture shows `center_y`.
pub open spec fn row(center_y: i64, y: i64) -> int {
    nearest_whole(sum(difference(y, center_y), ((HEIGHT / 2) * UNIT) as i64))
}

/// Whether the picture round `center` shows the place `at`.
pub open spec fn on_screen(center: Vector, at: Vector) -> bool {
    0 <= column(center.x, at.x) < WIDTH && 0 <= row(center.y, at.y) < HEIGHT
}

/// Where in the buffer the pixel for the place `at` lies: rows follow each
/// other, each `WIDTH` pixels long.
pub open spec fn pixel_index(center: Vector, at: Vector) -> int {
    row(center.y, at.y) * WIDTH + column(center.x, at.x)
}

/// Whether a dot at the place `at` colours the pixel `k`.
pub open spec fn dot_hits(center: Vector, at: Vector, k: int) -> bool {
    on_screen(center, at) && pixel_index(center, at) == k
}

/// The pixels after a dot of `color` was set at the place `at`: the one pixel
/// that shows the place has the colour, if the picture shows the place.
pub open spec fn dotted(pixels: Seq<u32>, center: Vector, at: Vector, color: u32) -> Seq<u32> {
    if on_screen(center, at) {
        pixels.update(pixel_index(center, at), color)
    } else {
        pixels
    }
}

/// Whether the whole-numbered offset `(dx, dy)` lies in the disc of `radius`.
pub open spec fn in_disc(dx: int, dy: int, radius: int) -> bool {
    &&& -radius <= dx <= radius
    &&& -radius <= dy <= radius
    &&& dx * dx + dy * dy <= radius * radius
}

/// The place `(x, y)` moved by the whole-numbered offset `(dx, dy)`.
pub open spec fn shifted(x: i64, y: i64, dx: int, dy: int) -> Vector {
    Vector { x: clamp(x + dx * UNIT), y: clamp(y + dy * UNIT) }
}

/// Whether `(dx, dy)` lies in the disc of `radius` and a dot that far from
/// `(x, y)` colours the pixel `k`.
pub open spec fn disc_hits(
    center: Vector,
    x: i64,
    y: i64,
    radius: int,
    dx: int,
    dy: int,
    k: int,
) -> bool {
    in_disc(dx, dy, radius) && dot_hits(center, shifted(x, y, dx, dy), k)
}

/// Whether the disc of `radius` round `(x, y)` colours the pixel `k`.
pub open spec fn disc_covers(center: Vector, x: i64, y: i64, radius: int, k: int) -> bool {
    exists|dx: int, dy: int| #[trigger] disc_hits(center, x, y, radius, dx, dy, k)
}

/// Whether the part of the disc that comes before `(bx, by)`, column by
/// column, colours the pixel `k`.
pub open spec fn disc_covers_before(
    center: Vector,
    x: i64,
    y: i64,
    radius: int,
    bx: int,
    by: int,
    k: int,
) -> bool {
    exists|dx: int, dy: int|
        (dx < bx || (dx == bx && dy < by)) && #[trigger] disc_hits(
            center,
            x,
            y,
            radius,
            dx,
            dy,
            k,
        )
}

/// The whole part of the quantity `v`, kept within 32 bits.
pub open spec fn whole_part(v: i64) -> int {
    let q = trunc_div(v as int, UNIT as int);
    if q > i32::MAX {
        i32::MAX as int
    } else if q < i32::MIN {
        i32::MIN as int
    } else {
        q
    }
}

/// How far `a` and `b` are apart.
pub open spec fn gap(a: int, b: int) -> int {
    if a < b {
        b - a
    } else {
        a - b
    }
}

/// The number `n` steps from `from` in the direction of `to`.
pub open spec fn toward(from: int, to: int, n: int) -> int {
    if from < to {
        from + n
    } else {
        from - n
    }
}

/// How far a line has come along its shorter side after `n` steps along its
/// longer side: the whole number nearest to `n * minor / major`, the lower
/// one of two that are equally near.
pub open spec fn lag(minor: int, major: int, n: int) -> int {
    if major == 0 {
        0
    } else {
        (2 * (minor * n) + major - 1) / (2 * major)
    }
}

/// The number of steps of the line from `(x1, y1)` to `(x2, y2)`.
pub open spec fn line_length(x1: int, y1: int, x2: int, y2: int) -> int {
    if gap(x1, x2) >= gap(y1, y2) {
        gap(x1, x2)
    } else {
        gap(y1, y2)
    }
}

/// The point after `n` steps of the line from `(x1, y1)` to `(x2, y2)`: one
/// step along the longer side each time, and along the shorter side as many
/// as keep the point nearest to the straight line.
pub open spec fn line_point(x1: int, y1: int, x2: int, y2: int, n: int) -> (int, int) {
    if gap(x1, x2) >= gap(y1, y2) {
        (toward(x1, x2, n), toward(y1, y2, lag(gap(y1, y2), gap(x1, x2), n)))
    } else {
        (toward(x1, x2, lag(gap(x1, x2), gap(y1, y2), n)), toward(y1, y2, n))
    }
}

/// The place in the world of the whole-numbered point `p`.
pub open spec fn place_of(p: (int, int)) -> Vector {
    Vector { x: clamp(p.0 * UNIT), y: clamp(p.1 * UNIT) }
}

/// Whether the dot after `n` steps of the line between the whole-numbered
/// points `(x1, y1)` and `(x2, y2)` colours the pixel `k`.
pub open spec fn line_hits(
    center: Vector,
    x1: int,
    y1: int,
    x2: int,
    y2: int,
    n: int,
    k: int,
) -> bool {
    dot_hits(center, place_of(line_point(x1, y1, x2, y2, n)), k)
}

/// Whether one of the first dots of that line, up to the one after `last`
/// steps, colours the pixel `k`.
pub open spec fn line_covers_upto(
    center: Vector,
    x1: int,
    y1: int,
    x2: int,
    y2: int,
    last: int,
    k: int,
) -> bool {
    exists|n: int| 0 <= n <= last && #[trigger] line_hits(center, x1, y1, x2, y2, n, k)
}

/// Whether the line between the whole parts of `(x1, y1)` and of `(x2, y2)`
/// colours the pixel `k`.
pub open spec fn line_covers(center: Vector, x1: i64, y1: i64, x2: i64, y2: i64, k: int) -> bool {
    line_covers_upto(
        center,
        whole_part(x1),
        whole_part(y1),
        whole_part(x2),
        whole_part(y2),
        line_length(whole_part(x1), whole_part(y1), whole_part(x2), whole_part(y2)),
        k,
    )
}

/// Whether `v` is the lag after `n` steps, said without division.
#[verifier::opaque]
pub open spec fn encloses(minor: int, major: int, n: int, v: int) -> bool {
    2 * (major * v) <= 2 * (minor * n) + major - 1 < 2 * (major * v) + 2 * major
}

/// The error term that a line carries along after `n` steps with lag `v`:
/// twice it, compared with the two sides, tells where the next step goes.
#[verifier::opaque]
pub open spec fn error_term(minor: int, major: int, n: int, v: int) -> int {
    major + major * v - minor - minor * n
}

/// The lag is the number that its two bounds enclose.
pub proof fn lemma_lag(minor: int, major: int, n: int, v: int)
    requires
        major > 0,
        encloses(minor, major, n, v),
    ensures
        lag(minor, major, n) == v,
{
    reveal(encloses);
    let top = 2 * (minor * n) + major - 1;
    let d = 2 * major;
    assert(d * v == 2 * (major * v) && d * (v + 1) == 2 * (major * v) + 2 * major)
        by (nonlinear_arith)
        requires
            d == 2 * major,
    ;
    assert(top / d == v) by (nonlinear_arith)
        requires
            d > 0,
            d * v <= top < d * (v + 1),
    ;
}

/// A line starts with no lag, and with the difference of its sides as its
/// error term.
pub proof fn lemma_lag_start(minor: int, major: int)
    requires
        major > 0,
    ensures
        encloses(minor, major, 0, 0),
        error_term(minor, major, 0, 0) == major - minor,
{
    reveal(encloses);
    reveal(error_term);
    assert(minor * 0 == 0 && major * 0 == 0) by (nonlinear_arith);
}

/// The lag lies between nothing and the shorter side, which it reaches at
/// the end and not before the start; the error term stays small.
pub proof fn lemma_lag_ends(minor: int, major: int, n: int, v: int)
    requires
        major > 0,
        0 <= minor <= major,
        0 <= n <= major,
        encloses(minor, major, n, v),
    ensures
        0 <= v <= minor,
        n == major ==> v == minor,
        n == 0 ==> v == 0,
        -major <= 2 * error_term(minor, major, n, v) <= 3 * major,
{
    reveal(encloses);
    reveal(error_term);
    assert(0 <= v <= minor && (n == major ==> v == minor) && (n == 0 ==> v == 0))
        by (nonlinear_arith)
        requires
            major > 0,
            0 <= minor <= major,
            0 <= n <= major,
            2 * (major * v) <= 2 * (minor * n) + major - 1 < 2 * (major * v) + 2 * major,
    ;
}

/// One step of a line along its longer side.  Twice the error term lies
/// above the negated shorter side, and tells by the longer side whether the
/// lag grows by one.
pub proof fn lemma_lag_step(minor: int, major: int, n: int, v: int)
    requires
        major > 0,
        0 <= minor <= major,
        0 <= n < major,
        encloses(minor, major, n, v),
    ensures
        2 * error_term(minor, major, n, v) > -minor,
        2 * error_term(minor, major, n, v) < major ==> encloses(minor, major, n + 1, v + 1)
            && error_term(minor, major, n + 1, v + 1) == error_term(minor, major, n, v) - minor
            + major,
        2 * error_term(minor, major, n, v) >= major ==> encloses(minor, major, n + 1, v)
            && error_term(minor, major, n + 1, v) == error_term(minor, major, n, v) - minor,
{
    reveal(encloses);
    reveal(error_term);
    let p = major * v;
    let q = minor * n;
    assert(major * (v + 1) == p + major && minor * (n + 1) == q + minor) by (nonlinear_arith)
        requires
            p == major * v,
            q == minor * n,
    ;
    if minor == major {
        assert(v == n) by (nonlinear_arith)
            requires
                major > 0,
                2 * (major * v) <= 2 * (major * n) + major - 1 < 2 * (major * v) + 2 * major,
        ;
    }
}

/// Where a line is after `i` steps along the first axis and `j` along the
/// second, of which the ones along its shorter side are the lag of the others.
pub proof fn lemma_line_point(x1: int, y1: int, x2: int, y2: int, i: int, j: int)
    requires
        gap(x1, x2) >= gap(y1, y2) ==> gap(x1, x2) > 0 && encloses(
            gap(y1, y2),
            gap(x1, x2),
            i,
            j,
        ),
        gap(x1, x2) < gap(y1, y2) ==> encloses(gap(x1, x2), gap(y1, y2), j, i),
    ensures
        gap(x1, x2) >= gap(y1, y2) ==> line_point(x1, y1, x2, y2, i) == (
            toward(x1, x2, i),
            toward(y1, y2, j),
        ),
        gap(x1, x2) < gap(y1, y2) ==> line_point(x1, y1, x2, y2, j) == (
            toward(x1, x2, i),
            toward(y1, y2, j),
        ),
{
    if gap(x1, x2) >= gap(y1, y2) {
        lemma_lag(gap(y1, y2), gap(x1, x2), i, j);
    } else {
        lemma_lag(gap(x1, x2), gap(y1, y2), j, i);
    }
}

/// One more dot of a line: the pixels that the line has coloured after `n`
/// steps are those that it had coloured before, and the one of the new dot.
pub proof fn lemma_line_dot(
    center: Vector,
    x1: int,
    y1: int,
    x2: int,
    y2: int,
    n: int,
    first: Seq<u32>,
    before: Seq<u32>,
    color: u32,
)
    requires
        n >= 0,
        first.len() == WIDTH * HEIGHT,
        before.len() == WIDTH * HEIGHT,
        forall|k: int|
            0 <= k < WIDTH * HEIGHT ==> before[k] == if line_covers_upto(
                center,
                x1,
                y1,
                x2,
                y2,
                n - 1,
                k,
            ) {
                color
            } else {
                first[k]
            },
    ensures
        forall|k: int|
            0 <= k < WIDTH * HEIGHT ==> dotted(
                before,
                center,
                place_of(line_point(x1, y1, x2, y2, n)),
                color,
            )[k] == if line_covers_upto(center, x1, y1, x2, y2, n, k) {
                color
            } else {
                first[k]
            },
{
    let at = place_of(line_point(x1, y1, x2, y2, n));
    let after = dotted(before, center, at, color);
    if on_screen(center, at) {
        lemma_pixel_in_buffer(center, at);
    }
    assert forall|k: int| 0 <= k < WIDTH * HEIGHT implies after[k] == if line_covers_upto(
        center,
        x1,
        y1,
        x2,
        y2,
        n,
        k,
    ) {
        color
    } else {
        first[k]
    } by {
        let hit = line_hits(center, x1, y1, x2, y2, n, k);
        let earlier = line_covers_upto(center, x1, y1, x2, y2, n - 1, k);
        let now = line_covers_upto(center, x1, y1, x2, y2, n, k);
        assert(hit == dot_hits(center, at, k));
        if earlier {
            let m = choose|m: int|
                0 <= m <= n - 1 && #[trigger] line_hits(center, x1, y1, x2, y2, m, k);
            assert(line_hits(center, x1, y1, x2, y2, m, k));
            assert(now);
        }
        if hit {
            assert(now);
        }
        if now && !hit {
            let m = choose|m: int|
                0 <= m <= n && #[trigger] line_hits(center, x1, y1, x2, y2, m, k);
            assert(line_hits(center, x1, y1, x2, y2, m, k));
            assert(earlier);
        }
    }
}

/// The whole part of the quantity `v`, kept within 32 bits.
pub fn whole(v: i64) -> (n: i64)
    ensures
        n == whole_part(v),
{
    let q = v / 1_000_000;
    if q > 0x7fff_ffff {
        0x7fff_ffff
    } else if q < -0x8000_0000 {
        -0x8000_0000
    } else {
        q
    }
}

/// The place of the dot of a rule: `t` whole units along the rule, which
/// runs along the first axis or along the second, at `across` on the other.
pub open spec fn rule_dot(along_x: bool, t: int, across: i64) -> Vector {
    if along_x {
        Vector { x: clamp(t * UNIT), y: across }
    } else {
        Vector { x: across, y: clamp(t * UNIT) }
    }
}

/// Whether a rule has a dot at `t`, one that colours the pixel `k`.
pub open spec fn rule_hits(center: Vector, along_x: bool, across: i64, t: int, k: int) -> bool {
    t % (GRID_DOT_SPACING as int) == 0 && dot_hits(center, rule_dot(along_x, t, across), k)
}

/// Whether the rule from `from` up to, but without, `to` colours the pixel
/// `k`.  A rule has its dots at the multiples of the dot spacing.
pub open spec fn rule_covers(
    center: Vector,
    along_x: bool,
    from: int,
    to: int,
    across: i64,
    k: int,
) -> bool {
    exists|t: int| from <= t < to && #[trigger] rule_hits(center, along_x, across, t, k)
}

/// The greatest multiple of the width (of the height, if not `wide`) that
/// does not pass `v`, moved by `shift`.
pub open spec fn grid_line(v: i64, wide: bool, shift: int) -> i64 {
    if wide {
        clamp((v / 1_920_000_000) * 1_920_000_000 + shift)
    } else {
        clamp((v / 1_080_000_000) * 1_080_000_000 + shift)
    }
}

/// The first whole unit of the picture round `center` along one axis.
pub open spec fn first_shown(center: i64, wide: bool) -> int {
    nearest_whole(
        difference(
            center,
            if wide {
                960_000_000i64
            } else {
                540_000_000i64
            },
        ),
    )
}

/// The whole unit behind the last one of the picture round `center` along
/// one axis.
pub open spec fn last_shown(center: i64, wide: bool) -> int {
    nearest_whole(
        sum(
            center,
            if wide {
                960_000_000i64
            } else {
                540_000_000i64
            },
        ),
    )
}

/// Whether the grid of the world colours the pixel `k` of the picture round
/// `center`.  The grid has a line wherever a coordinate is a multiple of
/// half the picture's size along that axis; the picture shows two of each
/// direction: the last whole multiple and the last odd half multiple that
/// lie before its far edge.
pub open spec fn grid_covers(center: Vector, k: int) -> bool {
    let far_x = sum(center.x, 960_000_000);
    let far_y = sum(center.y, 540_000_000);
    let from_x = first_shown(center.x, true);
    let to_x = last_shown(center.x, true);
    let from_y = first_shown(center.y, false);
    let to_y = last_shown(center.y, false);
    ||| rule_covers(center, true, from_x, to_x, grid_line(far_y, false, 0), k)
    ||| rule_covers(
        center,
        true,
        from_x,
        to_x,
        grid_line(difference(far_y, 540_000_000), false, 540_000_000),
        k,
    )
    ||| rule_covers(center, false, from_y, to_y, grid_line(far_x, true, 0), k)
    ||| rule_covers(
        center,
        false,
        from_y,
        to_y,
        grid_line(difference(far_x, 960_000_000), true, 960_000_000),
        k,
    )
}

/// The greatest multiple of the width (of the height, if not `wide`) that
/// does not pass `v`, moved by `shift`.
fn grid_line_at(v: i64, wide: bool, shift: i64) -> (r: i64)
    ensures
        r == grid_line(v, wide, shift as int),
{
    let w: i128 = v as i128;
    if wide {
        let q = w / 1_920_000_000;
        let down = if w - q * 1_920_000_000 < 0 {
            q - 1
        } else {
            q
        };
        saturate(down * 1_920_000_000 + shift as i128)
    } else {
        let q = w / 1_080_000_000;
        let down = if w - q * 1_080_000_000 < 0 {
            q - 1
        } else {
            q
        };
        saturate(down * 1_080_000_000 + shift as i128)
    }
}

/// The size of the picture, written out.
pub proof fn lemma_screen()
    ensures
        WIDTH == 1920,
        HEIGHT == 1080,
        WIDTH * HEIGHT == 2_073_600,
        (WIDTH / 2) * UNIT == 960_000_000,
        (HEIGHT / 2) * UNIT == 540_000_000,
        UNIT / 2 == 500_000,
{
    assert(WIDTH * HEIGHT == 2_073_600) by (nonlinear_arith)
        requires
            WIDTH == 1920,
            HEIGHT == 1080,
    ;
    assert((WIDTH / 2) * UNIT == 960_000_000 && (HEIGHT / 2) * UNIT == 540_000_000)
        by (nonlinear_arith)
        requires
            WIDTH / 2 == 960,
            HEIGHT / 2 == 540,
            UNIT == 1_000_000,
    ;
}

/// A pixel on the screen lies in the buffer.
pub proof fn lemma_pixel_in_buffer(center: Vector, at: Vector)
    requires
        on_screen(center, at),
    ensures
        0 <= pixel_index(center, at) < WIDTH * HEIGHT,
        pixel_index(center, at) == row(center.y, at.y) * 1920 + column(center.x, at.x),
{
    lemma_screen();
    let r = row(center.y, at.y);
    assert(r * WIDTH == r * 1920) by (nonlinear_arith)
        requires
            WIDTH == 1920,
    ;
}

/// Rounds the quantity `v` to the nearest whole number.
pub fn round_to_whole(v: i64) -> (n: i64)
    ensures
        n == nearest_whole(v),
{
    let wide: i128 = v as i128;
    if wide >= 0 {
        ((wide + 500_000) / 1_000_000) as i64
    } else {
        (-((500_000 - wide) / 1_000_000)) as i64
    }
}

/// A picture of the world.
pub struct Grid {
    /// The place in the world that the middle of the picture shows.
    pub center: Vector,
    /// The colours of the pixels, row after row.
    pub buffer: Vec<u32>,
}

impl Grid {
    /// The buffer holds one colour for each pixel of the picture.
    pub open spec fn wf(self) -> bool {
        self.buffer@.len() == WIDTH * HEIGHT
    }

    /// The pixels after a dot of `color` was set at the place `at`: the one
    /// pixel that shows the place has the colour, if the picture shows it.
    pub open spec fn with_dot(self, at: Vector, color: u32) -> Seq<u32> {
        dotted(self.buffer@, self.center, at, color)
    }

    /// An empty picture with the origin of the world in its middle.
    pub fn new() -> (grid: Grid)
        ensures
            grid.wf(),
            grid.center == Vector::zero(),
            forall|k: int| 0 <= k < WIDTH * HEIGHT ==> grid.buffer@[k] == BACKGROUND_COLOR,
    {
        proof {
            lemma_screen();
        }
        Grid { center: Vector { x: 0, y: 0 }, buffer: vec![BACKGROUND_COLOR; 2_073_600] }
    }

    /// Wipes the picture.
    pub fn clear(&mut self)
        requires
            old(self).wf(),
        ensures
            final(self).wf(),
            final(self).center == old(self).center,
            forall|k: int| 0 <= k < WIDTH * HEIGHT ==> final(self).buffer@[k] == BACKGROUND_COLOR,
    {
        let mut k: usize = 0;
        while k < self.buffer.len()
            invariant
                self.wf(),
                self.center == old(self).center,
                forall|j: int| 0 <= j < k ==> self.buffer@[j] == BACKGROUND_COLOR,
            decreases self.buffer@.len() - k,
        {
            self.buffer.set(k, BACKGROUND_COLOR);
            k = k + 1;
        }
    }

    /// Sets a dot of `color` at the place `(x, y)` of the world.  A place that
    /// the picture does not show leaves the picture as it is.
    pub fn draw_dot(&mut self, x: i64, y: i64, color: u32)
        requires
            old(self).wf(),
        ensures
            final(self).wf(),
            final(self).center == old(self).center,
            final(self).buffer@ == old(self).with_dot(Vector { x, y }, color),
    {
        proof {
            lemma_screen();
        }
        let centered_x = round_to_whole(plus(minus(x, self.center.x), 960_000_000));
        let centered_y = round_to_whole(plus(minus(y, self.center.y), 540_000_000));
        if centered_x >= 0 && centered_x < 1920 && centered_y >= 0 && centered_y < 1080 {
            proof {
                lemma_pixel_in_buffer(self.center, Vector { x, y });
            }
            let index = centered_y as usize * 1920 + centered_x as usize;
            self.buffer.set(index, color);
        }
    }

    /// Fills the disc of `radius` round the place `(x, y)` with `color`: a
    /// dot at each whole-numbered offset no longer than `radius`.
    pub fn draw_circle(&mut self, x: i64, y: i64, radius: usize, color: u32)
        requires
            old(self).wf(),
            radius <= 0x7fff_ffff,
        ensures
            final(self).wf(),
            final(self).center == old(self).center,
            forall|k: int|
                0 <= k < WIDTH * HEIGHT ==> final(self).buffer@[k] == if disc_covers(
                    old(self).center,
                    x,
                    y,
                    radius as int,
                    k,
                ) {
                    color
                } else {
                    old(self).buffer@[k]
                },
    {
        let r: i64 = radius as i64;
        let mut dx: i64 = -r;
        while dx <= r
            invariant
                self.wf(),
                old(self).wf(),
                self.center == old(self).center,
                r == radius,
                r <= 0x7fff_ffff,
                -r <= dx <= r + 1,
                forall|k: int|
                    0 <= k < WIDTH * HEIGHT ==> self.buffer@[k] == if disc_covers_before(
                        self.center,
                        x,
                        y,
                        r as int,
                        dx as int,
                        -r as int,
                        k,
                    ) {
                        color
                    } else {
                        old(self).buffer@[k]
                    },
            decreases r + 1 - dx,
        {
            let mut dy: i64 = -r;
            while dy <= r
                invariant
                    self.wf(),
                    old(self).wf(),
                    self.center == old(self).center,
                    r == radius,
                    r <= 0x7fff_ffff,
                    -r <= dx <= r,
                    -r <= dy <= r + 1,
                    forall|k: int|
                        0 <= k < WIDTH * HEIGHT ==> self.buffer@[k] == if disc_covers_before(
                            self.center,
                            x,
                            y,
                            r as int,
                            dx as int,
                            dy as int,
                            k,
                        ) {
                            color
                        } else {
                            old(self).buffer@[k]
                        },
                decreases r + 1 - dy,
            {
                assert(0 <= dx * dx <= 0x3fff_ffff_0000_0001 && 0 <= dy * dy
                    <= 0x3fff_ffff_0000_0001 && 0 <= r * r <= 0x3fff_ffff_0000_0001)
                    by (nonlinear_arith)
                    requires
                        -0x7fff_ffff <= dx <= 0x7fff_ffff,
                        -0x7fff_ffff <= dy <= 0x7fff_ffff,
                        0 <= r <= 0x7fff_ffff,
                ;
                let ghost before = self.buffer@;
                if dx * dx + dy * dy <= r * r {
                    proof {
                        lemma_unit_multiple(dx as int);
                        lemma_unit_multiple(dy as int);
                    }
                    let px = saturate(x as i128 + dx as i128 * 1_000_000);
                    let py = saturate(y as i128 + dy as i128 * 1_000_000);
                    self.draw_dot(px, py, color);
                }
                proof {
                    let c = self.center;
                    assert forall|k: int| 0 <= k < WIDTH * HEIGHT implies self.buffer@[k]
                        == if disc_covers_before(c, x, y, r as int, dx as int, dy + 1, k) {
                        color
                    } else {
                        old(self).buffer@[k]
                    } by {
                        if disc_hits(c, x, y, r as int, dx as int, dy as int, k) {
                            assert(disc_covers_before(c, x, y, r as int, dx as int, dy + 1, k));
                        } else if disc_covers_before(c, x, y, r as int, dx as int, dy as int, k) {
                            let (ax, ay) = choose|ax: int, ay: int|
                                (ax < dx || (ax == dx && ay < dy)) && #[trigger] disc_hits(
                                    c,
                                    x,
                                    y,
                                    r as int,
                                    ax,
                                    ay,
                                    k,
                                );
                            assert(disc_hits(c, x, y, r as int, ax, ay, k));
                        } else {
                            if disc_covers_before(c, x, y, r as int, dx as int, dy + 1, k) {
                                let (ax, ay) = choose|ax: int, ay: int|
                                    (ax < dx || (ax == dx && ay < dy + 1)) && #[trigger] disc_hits(
                                        c,
                                        x,
                                        y,
                                        r as int,
                                        ax,
                                        ay,
                                        k,
                                    );
                                assert(disc_hits(c, x, y, r as int, ax, ay, k));
                                assert(false);
                            }
                        }
                    }
                }
                dy = dy + 1;
            }
            proof {
                let c = self.center;
                assert forall|k: int|
                    disc_covers_before(c, x, y, r as int, dx as int, r + 1, k) == (
                    #[trigger] disc_covers_before(c, x, y, r as int, dx + 1, -r as int, k)) by {
                    if disc_covers_before(c, x, y, r as int, dx as int, r + 1, k) {
                        let (ax, ay) = choose|ax: int, ay: int|
                            (ax < dx || (ax == dx && ay < r + 1)) && #[trigger] disc_hits(
                                c,
                                x,
                                y,
                                r as int,
                                ax,
                                ay,
                                k,
                            );
                        assert(disc_hits(c, x, y, r as int, ax, ay, k));
                    }
                    if disc_covers_before(c, x, y, r as int, dx + 1, -r as int, k) {
                        let (ax, ay) = choose|ax: int, ay: int|
                            (ax < dx + 1 || (ax == dx + 1 && ay < -r)) && #[trigger] disc_hits(
                                c,
                                x,
                                y,
                                r as int,
                                ax,
                                ay,
                                k,
                            );
                        assert(disc_hits(c, x, y, r as int, ax, ay, k));
                    }
                }
            }
            dx = dx + 1;
        }
        proof {
            let c = self.center;
            assert forall|k: int|
                disc_covers_before(c, x, y, r as int, r + 1, -r as int, k) == (
                #[trigger] disc_covers(c, x, y, r as int, k)) by {
                if disc_covers(c, x, y, r as int, k) {
                    let (ax, ay) = choose|ax: int, ay: int| #[trigger]
                        disc_hits(c, x, y, r as int, ax, ay, k);
                    assert(disc_hits(c, x, y, r as int, ax, ay, k));
                }
            }
        }
    }

    /// Draws the line of `color` between the whole parts of the places
    /// `(x1, y1)` and `(x2, y2)`, both ends included.
    pub fn draw_line(&mut self, x1: i64, y1: i64, x2: i64, y2: i64, color: u32)
        requires
            old(self).wf(),
        ensures
            final(self).wf(),
            final(self).center == old(self).center,
            forall|k: int|
                0 <= k < WIDTH * HEIGHT ==> final(self).buffer@[k] == if line_covers(
                    old(self).center,
                    x1,
                    y1,
                    x2,
                    y2,
                    k,
                ) {
                    color
                } else {
                    old(self).buffer@[k]
                },
    {
        let from_x = whole(x1);
        let from_y = whole(y1);
        let to_x = whole(x2);
        let to_y = whole(y2);
        let dx: i64 = if from_x < to_x {
            to_x - from_x
        } else {
            from_x - to_x
        };
        let dy: i64 = if from_y < to_y {
            to_y - from_y
        } else {
            from_y - to_y
        };
        let sx: i64 = if from_x < to_x {
            1
        } else {
            -1
        };
        let sy: i64 = if from_y < to_y {
            1
        } else {
            -1
        };
        let mut x = from_x;
        let mut y = from_y;
        let mut err = dx - dy;
        let ghost c = self.center;
        let ghost first = self.buffer@;
        let ghost mut i: int = 0;
        let ghost mut j: int = 0;
        let ghost mut n: int = 0;
        proof {
            if dx >= dy && dx > 0 {
                lemma_lag_start(dy as int, dx as int);
            }
            if dx < dy {
                lemma_lag_start(dx as int, dy as int);
            }
            if dx > 0 || dy > 0 {
                lemma_line_point(from_x as int, from_y as int, to_x as int, to_y as int, 0, 0);
            }
            lemma_unit_multiple(x as int);
            lemma_unit_multiple(y as int);
            lemma_line_dot(
                c,
                from_x as int,
                from_y as int,
                to_x as int,
                to_y as int,
                0,
                first,
                first,
                color,
            );
        }
        self.draw_dot(x * 1_000_000, y * 1_000_000, color);
        assert(place_of(line_point(from_x as int, from_y as int, to_x as int, to_y as int, 0))
            == (Vector { x: (x * 1_000_000) as i64, y: (y * 1_000_000) as i64 }));
        while x != to_x || y != to_y
            invariant
                self.wf(),
                first == old(self).buffer@,
                first.len() == WIDTH * HEIGHT,
                self.center == old(self).center,
                c == self.center,
                -0x8000_0000 <= from_x <= 0x7fff_ffff,
                -0x8000_0000 <= from_y <= 0x7fff_ffff,
                -0x8000_0000 <= to_x <= 0x7fff_ffff,
                -0x8000_0000 <= to_y <= 0x7fff_ffff,
                dx == gap(from_x as int, to_x as int),
                dy == gap(from_y as int, to_y as int),
                sx == if from_x < to_x {
                    1i64
                } else {
                    -1i64
                },
                sy == if from_y < to_y {
                    1i64
                } else {
                    -1i64
                },
                0 <= i <= dx,
                0 <= j <= dy,
                x == toward(from_x as int, to_x as int, i),
                y == toward(from_y as int, to_y as int, j),
                dx >= dy && dx > 0 ==> err == error_term(dy as int, dx as int, i, j),
                dx < dy ==> -err == error_term(dx as int, dy as int, j, i),
                dx >= dy ==> n == i,
                dx < dy ==> n == j,
                dx >= dy && dx > 0 ==> encloses(dy as int, dx as int, i, j),
                dx < dy ==> encloses(dx as int, dy as int, j, i),
                forall|k: int|
                    0 <= k < WIDTH * HEIGHT ==> self.buffer@[k] == if line_covers_upto(
                        c,
                        from_x as int,
                        from_y as int,
                        to_x as int,
                        to_y as int,
                        n,
                        k,
                    ) {
                        color
                    } else {
                        first[k]
                    },
            decreases
                    (if dx >= dy {
                        dx - i
                    } else {
                        dy - j
                    }),
        {
            proof {
                if dx >= dy {
                    lemma_lag_ends(dy as int, dx as int, i, j);
                    lemma_lag_step(dy as int, dx as int, i, j);
                } else {
                    lemma_lag_ends(dx as int, dy as int, j, i);
                    lemma_lag_step(dx as int, dy as int, j, i);
                }
            }
            let e2 = 2 * err;
            if e2 > -dy {
                err = err - dy;
                x = x + sx;
                proof {
                    i = i + 1;
                }
            }
            if e2 < dx {
                err = err + dx;
                y = y + sy;
                proof {
                    j = j + 1;
                }
            }
            proof {
                n = n + 1;
                if dx >= dy {
                    lemma_lag_ends(dy as int, dx as int, i, j);
                } else {
                    lemma_lag_ends(dx as int, dy as int, j, i);
                }
                lemma_line_point(from_x as int, from_y as int, to_x as int, to_y as int, i, j);
                lemma_unit_multiple(x as int);
                lemma_unit_multiple(y as int);
                lemma_line_dot(
                    c,
                    from_x as int,
                    from_y as int,
                    to_x as int,
                    to_y as int,
                    n,
                    first,
                    self.buffer@,
                    color,
                );
            }
            self.draw_dot(x * 1_000_000, y * 1_000_000, color);
            assert(place_of(line_point(from_x as int, from_y as int, to_x as int, to_y as int, n))
                == (Vector { x: (x * 1_000_000) as i64, y: (y * 1_000_000) as i64 }));
        }
        proof {
            if dx >= dy && dx > 0 {
                lemma_lag_ends(dy as int, dx as int, i, j);
            }
            if dx < dy {
                lemma_lag_ends(dx as int, dy as int, j, i);
            }
        }
    }

    /// Draws a rule of `color`: a dot at each multiple of the dot spacing
    /// from `from` up to, but without, `to`.
    fn draw_rule(&mut self, along_x: bool, from: i64, to: i64, across: i64, color: u32)
        requires
            old(self).wf(),
        ensures
            final(self).wf(),
            final(self).center == old(self).center,
            forall|k: int|
                0 <= k < WIDTH * HEIGHT ==> final(self).buffer@[k] == if rule_covers(
                    old(self).center,
                    along_x,
                    from as int,
                    to as int,
                    across,
                    k,
                ) {
                    color
                } else {
                    old(self).buffer@[k]
                },
    {
        let ghost c = self.center;
        let mut t: i64 = from;
        while t < to
            invariant
                self.wf(),
                old(self).wf(),
                self.center == c,
                c == old(self).center,
                from <= t,
                t <= to || t == from,
                forall|k: int|
                    0 <= k < WIDTH * HEIGHT ==> self.buffer@[k] == if rule_covers(
                        c,
                        along_x,
                        from as int,
                        t as int,
                        across,
                        k,
                    ) {
                        color
                    } else {
                        old(self).buffer@[k]
                    },
            decreases to - t,
        {
            let ghost before = self.buffer@;
            if t % 8 == 0 {
                proof {
                    lemma_unit_multiple(t as int);
                }
                let place = saturate(t as i128 * 1_000_000);
                if along_x {
                    self.draw_dot(place, across, color);
                } else {
                    self.draw_dot(across, place, color);
                }
            }
            proof {
                let at = rule_dot(along_x, t as int, across);
                if on_screen(c, at) {
                    lemma_pixel_in_buffer(c, at);
                }
                assert forall|k: int| 0 <= k < WIDTH * HEIGHT implies self.buffer@[k]
                    == if rule_covers(c, along_x, from as int, t + 1, across, k) {
                    color
                } else {
                    old(self).buffer@[k]
                } by {
                    let hit = rule_hits(c, along_x, across, t as int, k);
                    let earlier = rule_covers(c, along_x, from as int, t as int, across, k);
                    let now = rule_covers(c, along_x, from as int, t + 1, across, k);
                    if earlier {
                        let m = choose|m: int|
                            from <= m < t && #[trigger] rule_hits(c, along_x, across, m, k);
                        assert(rule_hits(c, along_x, across, m, k));
                        assert(now);
                    }
                    if hit {
                        assert(now);
                    }
                    if now && !hit {
                        let m = choose|m: int|
                            from <= m < t + 1 && #[trigger] rule_hits(c, along_x, across, m, k);
                        assert(rule_hits(c, along_x, across, m, k));
                        assert(earlier);
                    }
                }
            }
            t = t + 1;
        }
        proof {
            assert forall|k: int|
                rule_covers(c, along_x, from as int, t as int, across, k) == (
                #[trigger] rule_covers(c, along_x, from as int, to as int, across, k)) by {
                if to < from {
                    assert(!rule_covers(c, along_x, from as int, t as int, across, k));
                    assert(!rule_covers(c, along_x, from as int, to as int, across, k));
                }
            }
        }
    }

    /// Marks the grid of the world with dots of the grid colour.
    pub fn draw_grid(&mut self)
        requires
            old(self).wf(),
        ensures
            final(self).wf(),
            final(self).center == old(self).center,
            forall|k: int|
                0 <= k < WIDTH * HEIGHT ==> final(self).buffer@[k] == if grid_covers(
                    old(self).center,
                    k,
                ) {
                    GRID_COLOR
                } else {
                    old(self).buffer@[k]
                },
    {
        let min_x = minus(self.center.x, 960_000_000);
        let max_x = plus(self.center.x, 960_000_000);
        let min_y = minus(self.center.y, 540_000_000);
        let max_y = plus(self.center.y, 540_000_000);
        let x_grid_1 = grid_line_at(max_x, true, 0);
        let y_grid_1 = grid_line_at(max_y, false, 0);
        let x_grid_2 = grid_line_at(minus(max_x, 960_000_000), true, 960_000_000);
        let y_grid_2 = grid_line_at(minus(max_y, 540_000_000), false, 540_000_000);
        let from_x = round_to_whole(min_x);
        let to_x = round_to_whole(max_x);
        let from_y = round_to_whole(min_y);
        let to_y = round_to_whole(max_y);
        self.draw_rule(true, from_x, to_x, y_grid_1, GRID_COLOR);
        self.draw_rule(true, from_x, to_x, y_grid_2, GRID_COLOR);
        self.draw_rule(false, from_y, to_y, x_grid_1, GRID_COLOR);
        self.draw_rule(false, from_y, to_y, x_grid_2, GRID_COLOR);
    }

    /// Moves the middle of the picture to the mean position of `fishes`, and
    /// leaves it where it is when there is no fish.
    pub fn center_screen(&mut self, fishes: &Vec<Fish>)
        ensures
            final(self).buffer@ == old(self).buffer@,
            final(self).center == if fishes@.len() == 0 {
                old(self).center
            } else {
                mean(positions(fishes@), fishes@.len() as int)
            },
    {
        let mut wide_x: i128 = 0;
        let mut wide_y: i128 = 0;
        let mut i: usize = 0;
        while i < fishes.len()
            invariant
                i <= fishes.len(),
                wide_x == total_x(positions(fishes@).take(i as int)),
                wide_y == total_y(positions(fishes@).take(i as int)),
                -(i as int) * 0x8000_0000_0000_0000 <= wide_x <= i * 0x8000_0000_0000_0000,
                -(i as int) * 0x8000_0000_0000_0000 <= wide_y <= i * 0x8000_0000_0000_0000,
            decreases fishes.len() - i,
        {
            proof {
                lemma_total_step(positions(fishes@), i as int);
            }
            wide_x = wide_x + fishes[i].position.x as i128;
            wide_y = wide_y + fishes[i].position.y as i128;
            i = i + 1;
        }
        assert(positions(fishes@).take(i as int) =~= positions(fishes@));
        if i > 0 {
            self.center = Vector {
                x: saturate(quotient(wide_x, i as i128)),
                y: saturate(quotient(wide_y, i as i128)),
            };
        }
    }
}

/// The positions of `fishes`, in order.
pub open spec fn positions(fishes: Seq<Fish>) -> Seq<Vector> {
    Seq::new(fishes.len(), |i: int| fishes[i].position)
}

} // verus!

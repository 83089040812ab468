//! Bridson's Poisson-disc sampling, one point at a time.
//!
//! A [`PoissonDiscSampler`] holds the parameters of the algorithm, the grid of
//! the points that it has accepted and the list of those around which it still
//! looks for room. Each call of [`PoissonDiscSampler::sample`] makes one round
//! of attempts around one of them.
use vstd::arithmetic::power2::{lemma_pow2_strictly_increases, pow2};
use vstd::prelude::*;
use crate::algorithms::grid::{lemma_indices_enclose, lemma_occupied_bounded, Grid, GridView};
use crate::geometry::{Domain, Point};
use crate::numeric::{
    floor_div_sqrt2, floor_log2, is_floor_div_sqrt2, is_floor_log2,
    lemma_square_is_not_twice_a_square, spec_floor_div_sqrt2,
};
use crate::random::{random_between, random_index, Samplable};

verus! {

/// The lowest minimum distance that is drawn: `start`, or zero without one.
pub open spec fn min_distance_floor(start: Option<u32>) -> int {
    match start {
        Some(s) => s as int,
        None => 0,
    }
}

/// Whether `d` is no more than the highest minimum distance that is drawn:
/// `end`, or without one the binary logarithm of the area of `rect`.
pub open spec fn within_ceiling(rect: Domain, end: Option<u32>, d: int) -> bool {
    match end {
        Some(e) => d <= e,
        None => 0 <= d && pow2(d as nat) <= rect.spec_w() * rect.spec_h(),
    }
}

/// The powers of two do not fall as the exponent grows.
proof fn lemma_pow2_increases(e1: nat, e2: nat)
    requires
        e1 <= e2,
    ensures
        pow2(e1) <= pow2(e2),
{
    if e1 < e2 {
        lemma_pow2_strictly_increases(e1, e2);
    }
}

/// The range from which a minimum distance is drawn: from `start`, or zero,
/// to `end`, or the binary logarithm of the area of `rect`, rounded down.
pub fn min_distance_range(rect: &Domain, start: Option<u32>, end: Option<u32>) -> (range: (
    u32,
    u32,
))
    requires
        end is None ==> rect.well_formed(),
    ensures
        range.0 == min_distance_floor(start),
        match end {
            Some(e) => range.1 == e,
            None => is_floor_log2(range.1 as nat, rect.spec_w() * rect.spec_h()),
        },
{
    let s: u32 = match start {
        None => 0,
        Some(s) => s,
    };
    let e: u32 = match end {
        None => {
            let w: u64 = rect.w() as u64;
            let h: u64 = rect.h() as u64;
            assert(1 <= w * h <= 0xffff_ffff_0000_0000) by (nonlinear_arith)
                requires
                    1 <= w <= 0xffff_ffff,
                    1 <= h <= 0xffff_ffff,
            ;
            floor_log2(w * h)
        },
        Some(e) => e,
    };
    (s, e)
}

/// Calculates the minimum distance between the points of a sampler: a value
/// drawn at random from `start`, or zero, up to `end`, or the binary
/// logarithm of the area of `rect`.
pub fn calculate_min_distance(rect: &Domain, start: Option<u32>, end: Option<u32>) -> (r: u32)
    requires
        end is None ==> rect.well_formed(),
        within_ceiling(*rect, end, min_distance_floor(start)),
    ensures
        min_distance_floor(start) <= r,
        within_ceiling(*rect, end, r as int),
{
    let (s, e) = min_distance_range(rect, start, end);
    proof {
        if end is None {
            if s > e {
                lemma_pow2_increases((e + 1) as nat, s as nat);
            }
        }
    }
    let r = random_between(s, e);
    proof {
        if end is None {
            lemma_pow2_increases(r as nat, e as nat);
        }
    }
    r
}

/// What the test of a candidate says.
#[derive(Clone, Copy, Debug, PartialEq, Eq, Structural)]
pub enum SampleStatus {
    Valid,
    Invalid,
}

/// Why a sampler cannot be made.
#[derive(Clone, Copy, Debug, PartialEq, Eq, Structural)]
pub enum SamplerError {
    /// The domain has no interior.
    InvalidDomain,
    /// The minimum distance is below two, so that a cell would have no side.
    RadiusTooSmall,
    /// The number of attempts per round is zero.
    NoAttempts,
    /// The grid would have more cells than a grid may have.
    GridTooLarge,
    /// The first point lies outside the domain.
    SeedOutsideDomain,
}

/// Whether two cells touch, by an edge or a corner, or are the same.
pub open spec fn adjacent(a: (int, int), b: (int, int)) -> bool {
    a.0 - 1 <= b.0 <= a.0 + 1 && a.1 - 1 <= b.1 <= a.1 + 1
}

/// Whether some cell lies between two cells, and no more than one: they are
/// two columns or two rows apart, and no further.
pub open spec fn two_apart(a: (int, int), b: (int, int)) -> bool {
    &&& a.0 - 2 <= b.0 <= a.0 + 2
    &&& a.1 - 2 <= b.1 <= a.1 + 2
    &&& !adjacent(a, b)
}

/// A sampler as a mathematical value.
pub struct SamplerView {
    /// The minimum distance between two points.
    pub r: nat,
    /// The number of attempts in a round.
    pub k: nat,
    /// The grid of the accepted points.
    pub grid: GridView,
    /// The points around which room is still looked for.
    pub active: Seq<Point>,
}

impl SamplerView {
    /// No point is left to look around.
    pub open spec fn finished(self) -> bool {
        self.active.len() == 0
    }

    /// Whether the cell `(col, row)` belongs to the block of three by three
    /// cells around `center`, cut off at the edges of the grid.
    pub open spec fn in_window(self, center: (int, int), col: int, row: int) -> bool {
        self.grid.in_range(col, row) && adjacent(center, (col, row))
    }

    /// Whether the cell `(col, row)` is empty or holds a point at least `r`
    /// away from `point`.
    pub open spec fn clear_of(self, col: int, row: int, point: Point) -> bool {
        match self.grid.cells[(col, row)] {
            Some(q) => q.spec_distance_squared(point) >= self.r * self.r,
            None => true,
        }
    }

    /// Whether `point` may be accepted: it lies in the domain, and no point
    /// stored in the window around its cell is nearer to it than `r`.
    pub open spec fn valid_sample(self, point: Point) -> bool {
        &&& self.grid.domain.spec_contains(point)
        &&& forall|col: int, row: int|
            self.in_window(self.grid.indices_of(point), col, row) ==> #[trigger] self.clear_of(
                col,
                row,
                point,
            )
    }

    /// The candidate that `offset` leads to from the active point `index`,
    /// where it has 32-bit coordinates.
    pub open spec fn candidate(self, index: int, offset: Point) -> Option<Point> {
        let (x, y) = self.active[index].spec_moved_by(offset);
        if i32::MIN <= x <= i32::MAX && i32::MIN <= y <= i32::MAX {
            Some(Point { x: x as i32, y: y as i32 })
        } else {
            None
        }
    }

    /// Whether `offset` makes a successful attempt around the active point
    /// `index`: it is at least `r` long and less than twice `r`, and it leads
    /// to a candidate that may be accepted.
    pub open spec fn valid_offset(self, index: int, offset: Point) -> bool {
        &&& offset.spec_in_annulus(self.r as int)
        &&& match self.candidate(index, offset) {
            Some(c) => self.valid_sample(c),
            None => false,
        }
    }

    /// Whether `point` lies in the annulus around the active point `index`:
    /// at least `r` away from it and less than twice `r`.
    pub open spec fn around(self, index: int, point: Point) -> bool {
        0 <= index < self.active.len() && self.r * self.r <= self.active[index].spec_distance_squared(
            point,
        ) < 4 * self.r * self.r
    }

    /// The sampler after it has accepted `point`.
    pub open spec fn accept(self, point: Point) -> SamplerView {
        SamplerView { grid: self.grid.with_point(point), active: self.active.push(point), ..self }
    }

    /// The sampler after it has given up the active point `index`.
    pub open spec fn retire(self, index: int) -> SamplerView {
        SamplerView { active: self.active.remove(index), ..self }
    }

    /// The points accepted so far, the first one included.
    pub open spec fn accepted(self) -> Set<Point> {
        Set::new(|p: Point| self.grid.holds(p))
    }

    /// How many rounds are left at most: two for each free cell, one to fill
    /// it and one to give its point up, and one for each active point.
    pub open spec fn steps_left(self) -> int {
        2 * (self.grid.cols * self.grid.rows - self.grid.occupied().len()) + self.active.len()
    }

    /// Any two points stored in cells that touch are at least `r` apart.
    pub open spec fn spaced(self) -> bool {
        forall|a: (int, int), b: (int, int)|
            #![trigger self.grid.cells[a], self.grid.cells[b]]
            a != b && adjacent(a, b) && self.grid.in_range(a.0, a.1) && self.grid.in_range(
                b.0,
                b.1,
            ) ==> match (self.grid.cells[a], self.grid.cells[b]) {
                (Some(p), Some(q)) => p.spec_distance_squared(q) >= self.r * self.r,
                _ => true,
            }
    }

    /// The grid is well formed and its cells have the side that goes with
    /// `r`; every active point is stored in the grid; stored points in
    /// touching cells keep their distance.
    pub open spec fn well_formed(self) -> bool {
        &&& self.grid.well_formed()
        &&& self.k >= 1
        &&& self.r <= u32::MAX
        &&& is_floor_div_sqrt2(self.grid.cell_size as int, self.r as int)
        &&& forall|i: int| 0 <= i < self.active.len() ==> self.grid.holds(#[trigger] self.active[i])
        &&& self.spaced()
    }

    /// Whether `offsets` can be the offsets tried, in this order, in one round
    /// around the active point `index`: at least one and at most `k`, none but
    /// the last leading to a candidate that may be accepted, and fewer than
    /// `k` only where the last one does.
    pub open spec fn is_round(self, index: int, offsets: Seq<Point>) -> bool {
        &&& 0 <= index < self.active.len()
        &&& 1 <= offsets.len() <= self.k
        &&& forall|i: int|
            0 <= i < offsets.len() - 1 ==> !self.valid_offset(index, #[trigger] offsets[i])
        &&& offsets.len() == self.k || self.valid_offset(index, offsets.last())
    }

    /// The point that a round with these offsets yields, if any.
    pub open spec fn round_sample(self, index: int, offsets: Seq<Point>) -> Option<Point> {
        if self.valid_offset(index, offsets.last()) {
            self.candidate(index, offsets.last())
        } else {
            None
        }
    }

    /// The sampler after a round with these offsets: it has accepted the point
    /// that the round yields, or given up the point that it looked around.
    pub open spec fn after_round(self, index: int, offsets: Seq<Point>) -> SamplerView {
        match self.round_sample(index, offsets) {
            Some(c) => self.accept(c),
            None => self.retire(index),
        }
    }
}

/// Whether each of `offsets` may have come out of a call `draw(r)`.
pub open spec fn drawn_with<F: Fn(u32) -> Point>(draw: F, r: nat, offsets: Seq<Point>) -> bool {
    forall|i: int| 0 <= i < offsets.len() ==> call_ensures(draw, (r as u32,), #[trigger] offsets[i])
}

/// The sampler after the rounds of a run, each given by the active point that
/// it was made around and by the offsets that it tried.
pub open spec fn after_run(s: SamplerView, rounds: Seq<(int, Seq<Point>)>) -> SamplerView
    decreases rounds.len(),
{
    if rounds.len() == 0 {
        s
    } else {
        after_run(s, rounds.drop_last()).after_round(rounds.last().0, rounds.last().1)
    }
}

/// The points that the rounds of a run yield, in their order.
pub open spec fn samples_of(s: SamplerView, rounds: Seq<(int, Seq<Point>)>) -> Seq<Point>
    decreases rounds.len(),
{
    if rounds.len() == 0 {
        Seq::empty()
    } else {
        let earlier = samples_of(s, rounds.drop_last());
        match after_run(s, rounds.drop_last()).round_sample(rounds.last().0, rounds.last().1) {
            Some(p) => earlier.push(p),
            None => earlier,
        }
    }
}

/// Whether `rounds` can be the rounds of a run that starts from `s`: each is
/// a round of the sampler as the rounds before it left it, and its offsets
/// may have come out of `draw`.
pub open spec fn is_run<F: Fn(u32) -> Point>(
    s: SamplerView,
    draw: F,
    rounds: Seq<(int, Seq<Point>)>,
) -> bool
    decreases rounds.len(),
{
    rounds.len() == 0 || {
        let before = after_run(s, rounds.drop_last());
        &&& is_run(s, draw, rounds.drop_last())
        &&& before.is_round(rounds.last().0, rounds.last().1)
        &&& drawn_with(draw, before.r, rounds.last().1)
    }
}

/// A candidate lies as far from its active point as its offset is long.
pub proof fn lemma_candidate_distance(s: SamplerView, index: int, offset: Point)
    requires
        s.candidate(index, offset) is Some,
    ensures
        s.active[index].spec_distance_squared(s.candidate(index, offset)->Some_0)
            == offset.spec_length_squared(),
{
    let dx = offset.x as int;
    let dy = offset.y as int;
    assert((-dx) * (-dx) == dx * dx) by (nonlinear_arith);
    assert((-dy) * (-dy) == dy * dy) by (nonlinear_arith);
}

/// The point that a round yields lies in the annulus around the active point
/// of the round, and may be accepted.
pub proof fn lemma_round_sample_around(s: SamplerView, index: int, offsets: Seq<Point>)
    requires
        s.is_round(index, offsets),
    ensures
        match s.round_sample(index, offsets) {
            Some(p) => s.around(index, p) && s.valid_sample(p),
            None => offsets.len() == s.k,
        },
{
    if s.valid_offset(index, offsets.last()) {
        lemma_candidate_distance(s, index, offsets.last());
    }
}

/// A run that starts from a finished sampler has no round.
pub proof fn lemma_finished_allows_no_run<F: Fn(u32) -> Point>(
    s: SamplerView,
    draw: F,
    rounds: Seq<(int, Seq<Point>)>,
)
    requires
        s.finished(),
        is_run(s, draw, rounds),
    ensures
        rounds.len() == 0,
    decreases rounds.len(),
{
    if rounds.len() > 0 {
        lemma_finished_allows_no_run(s, draw, rounds.drop_last());
        assert(after_run(s, rounds.drop_last()) == s);
    }
}

/// The squared distance does not depend on the order of the two points.
pub proof fn lemma_distance_symmetric(p: Point, q: Point)
    ensures
        p.spec_distance_squared(q) == q.spec_distance_squared(p),
{
    let dx = p.x - q.x;
    let dy = p.y - q.y;
    assert(dx * dx == (-dx) * (-dx)) by (nonlinear_arith);
    assert(dy * dy == (-dy) * (-dy)) by (nonlinear_arith);
}

/// Two points of one cell are no further apart than the cell's diagonal.
proof fn lemma_same_cell_is_close(grid: GridView, p: Point, q: Point)
    requires
        grid.well_formed(),
        grid.domain.spec_contains(p),
        grid.domain.spec_contains(q),
        grid.indices_of(p) == grid.indices_of(q),
    ensures
        p.spec_distance_squared(q) <= 2 * grid.cell_size * grid.cell_size,
{
    let s = grid.cell_size as int;
    let (col, row) = grid.indices_of(p);
    lemma_indices_enclose(grid, p);
    lemma_indices_enclose(grid, q);
    let dx = p.x - q.x;
    let dy = p.y - q.y;
    assert((col + 1) * s == col * s + s) by (nonlinear_arith);
    assert((row + 1) * s == row * s + s) by (nonlinear_arith);
    assert(-s <= dx <= s);
    assert(-s <= dy <= s);
    assert(dx * dx <= s * s) by (nonlinear_arith)
        requires
            -s <= dx <= s,
    ;
    assert(dy * dy <= s * s) by (nonlinear_arith)
        requires
            -s <= dy <= s,
    ;
    assert(2 * s * s == s * s + s * s) by (nonlinear_arith);
}

/// Two points whose cells are three or more columns or rows apart are further
/// apart than `r`.
proof fn lemma_far_cells_are_apart(s: SamplerView, p: Point, q: Point)
    requires
        s.well_formed(),
        s.grid.domain.spec_contains(p),
        s.grid.domain.spec_contains(q),
        !adjacent(s.grid.indices_of(p), s.grid.indices_of(q)),
        !two_apart(s.grid.indices_of(p), s.grid.indices_of(q)),
    ensures
        p.spec_distance_squared(q) >= s.r * s.r,
{
    let side = s.grid.cell_size as int;
    let r = s.r as int;
    let a = s.grid.indices_of(p);
    let b = s.grid.indices_of(q);
    lemma_indices_enclose(s.grid, p);
    lemma_indices_enclose(s.grid, q);
    // Twice the side of a cell is no less than `r`.
    assert(2 * side >= r) by (nonlinear_arith)
        requires
            side >= 1,
            r >= 0,
            r * r < 2 * (side + 1) * (side + 1),
    {
        if 2 * side < r {
            assert((2 * side + 1) * (2 * side + 1) <= r * r);
        }
    }
    let dx = p.x - q.x;
    let dy = p.y - q.y;
    assert(dx * dx >= 0) by (nonlinear_arith);
    assert(dy * dy >= 0) by (nonlinear_arith);
    if b.0 >= a.0 + 3 || a.0 >= b.0 + 3 {
        lemma_gap_of_two_cells(a.0, b.0, side, p.x - s.grid.domain.left, q.x - s.grid.domain.left);
        assert(dx * dx >= r * r) by (nonlinear_arith)
            requires
                dx >= 2 * side || -dx >= 2 * side,
                2 * side >= r,
                r >= 0,
        ;
    } else {
        lemma_gap_of_two_cells(a.1, b.1, side, s.grid.domain.top - p.y, s.grid.domain.top - q.y);
        assert(dy * dy >= r * r) by (nonlinear_arith)
            requires
                dy >= 2 * side || -dy >= 2 * side,
                2 * side >= r,
                r >= 0,
        ;
    }
}

/// Along one axis: positions in cells that are three or more apart differ by
/// at least two sides of a cell.
proof fn lemma_gap_of_two_cells(a: int, b: int, side: int, x: int, y: int)
    requires
        side >= 1,
        a * side <= x <= (a + 1) * side,
        b * side <= y <= (b + 1) * side,
        b >= a + 3 || a >= b + 3,
    ensures
        y - x >= 2 * side || x - y >= 2 * side,
{
    if b >= a + 3 {
        assert(b * side >= (a + 1) * side + 2 * side) by (nonlinear_arith)
            requires
                b >= a + 3,
                side >= 1,
        ;
    } else {
        assert(a * side >= (b + 1) * side + 2 * side) by (nonlinear_arith)
            requires
                a >= b + 3,
                side >= 1,
        ;
    }
}

/// Along one axis: positions in cells that are two or more apart differ by at
/// least one side of a cell.
proof fn lemma_gap_of_one_cell(a: int, b: int, side: int, x: int, y: int)
    requires
        side >= 1,
        a * side <= x <= (a + 1) * side,
        b * side <= y <= (b + 1) * side,
        b >= a + 2 || a >= b + 2,
    ensures
        y - x >= side || x - y >= side,
{
    if b >= a + 2 {
        assert(b * side >= (a + 1) * side + side) by (nonlinear_arith)
            requires
                b >= a + 2,
                side >= 1,
        ;
    } else {
        assert(a * side >= (b + 1) * side + side) by (nonlinear_arith)
            requires
                a >= b + 2,
                side >= 1,
        ;
    }
}

/// A candidate that may be accepted falls into an empty cell: a point in the
/// same cell would be nearer to it than `r`.
pub proof fn lemma_own_cell_is_empty(s: SamplerView, point: Point)
    requires
        s.well_formed(),
        s.valid_sample(point),
    ensures
        s.grid.in_range(s.grid.indices_of(point).0, s.grid.indices_of(point).1),
        s.grid.cells[s.grid.indices_of(point)] is None,
{
    let idx = s.grid.indices_of(point);
    lemma_indices_enclose(s.grid, point);
    assert(idx == (idx.0, idx.1));
    if s.grid.cells[(idx.0, idx.1)] is Some {
        let q = s.grid.cells[(idx.0, idx.1)]->Some_0;
        assert(s.in_window(idx, idx.0, idx.1));
        assert(s.clear_of(idx.0, idx.1, point));
        lemma_same_cell_is_close(s.grid, q, point);
        assert(s.r >= 1) by (nonlinear_arith)
            requires
                s.grid.cell_size >= 1,
                2 * s.grid.cell_size * s.grid.cell_size <= s.r * s.r,
        ;
        lemma_square_is_not_twice_a_square(s.r, s.grid.cell_size);
    }
}

/// A sampler whose grid is empty and that has no active point is well formed,
/// has accepted no point, and may accept any point of its domain.
proof fn lemma_empty_sampler(s: SamplerView)
    requires
        s.grid.well_formed(),
        s.grid.occupied() == Set::<(int, int)>::empty(),
        s.active == Seq::<Point>::empty(),
        s.k >= 1,
        s.r <= u32::MAX,
        is_floor_div_sqrt2(s.grid.cell_size as int, s.r as int),
    ensures
        s.well_formed(),
        s.accepted() == Set::<Point>::empty(),
        forall|p: Point| s.grid.domain.spec_contains(p) ==> s.valid_sample(p),
{
    assert forall|a: (int, int)| s.grid.in_range(a.0, a.1) implies (#[trigger] s.grid.cells[a])
        is None by {
        assert(!s.grid.occupied().contains(a));
    }
    assert forall|p: Point| !s.grid.holds(p) by {
        if s.grid.domain.spec_contains(p) {
            lemma_indices_enclose(s.grid, p);
        }
    }
    assert(s.accepted() =~= Set::<Point>::empty());
    assert forall|p: Point| s.grid.domain.spec_contains(p) implies s.valid_sample(p) by {
        assert forall|col: int, row: int|
            s.in_window(s.grid.indices_of(p), col, row) implies #[trigger] s.clear_of(
            col,
            row,
            p,
        ) by {
            assert(s.grid.cells[(col, row)] is None);
        }
    }
}

/// Accepting a candidate that may be accepted keeps the sampler well formed,
/// adds the candidate to the accepted points and fills one more cell.
pub proof fn lemma_accept(s: SamplerView, point: Point)
    requires
        s.well_formed(),
        s.valid_sample(point),
    ensures
        s.accept(point).well_formed(),
        !s.accepted().contains(point),
        s.accept(point).accepted() == s.accepted().insert(point),
        s.accept(point).grid.occupied().len() == s.grid.occupied().len() + 1,
        s.accept(point).steps_left() == s.steps_left() - 1,
{
    let t = s.accept(point);
    let idx = s.grid.indices_of(point);
    lemma_own_cell_is_empty(s, point);
    assert(idx == (idx.0, idx.1));
    assert forall|col: int, row: int| t.grid.in_range(col, row) implies match #[trigger] t.grid.cells[(
        col,
        row,
    )] {
        Some(p) => t.grid.domain.spec_contains(p) && t.grid.indices_of(p) == (col, row),
        None => true,
    } by {
        if (col, row) != idx {
            assert(t.grid.cells[(col, row)] == s.grid.cells[(col, row)]);
        }
    }
    assert forall|i: int| 0 <= i < t.active.len() implies t.grid.holds(#[trigger] t.active[i]) by {
        if i < s.active.len() {
            assert(s.grid.holds(s.active[i]));
        }
    }
    assert forall|a: (int, int), b: (int, int)|
        #![trigger t.grid.cells[a], t.grid.cells[b]]
        a != b && adjacent(a, b) && t.grid.in_range(a.0, a.1) && t.grid.in_range(
            b.0,
            b.1,
        ) implies match (t.grid.cells[a], t.grid.cells[b]) {
        (Some(p), Some(q)) => p.spec_distance_squared(q) >= t.r * t.r,
        _ => true,
    } by {
        assert(a == (a.0, a.1) && b == (b.0, b.1));
        if a == idx {
            assert(s.in_window(idx, b.0, b.1));
            assert(s.clear_of(b.0, b.1, point));
            if s.grid.cells[b] is Some {
                lemma_distance_symmetric(point, s.grid.cells[b]->Some_0);
            }
        } else if b == idx {
            assert(s.in_window(idx, a.0, a.1));
            assert(s.clear_of(a.0, a.1, point));
        } else {
            assert(t.grid.cells[a] == s.grid.cells[a]);
            assert(t.grid.cells[b] == s.grid.cells[b]);
        }
    }
    assert(t.accepted() =~= s.accepted().insert(point));
    lemma_occupied_bounded(s.grid);
    assert(t.grid.occupied() =~= s.grid.occupied().insert(idx));
}

/// Giving up an active point keeps the sampler well formed and leaves the
/// grid as it is.
pub proof fn lemma_retire(s: SamplerView, index: int)
    requires
        s.well_formed(),
        0 <= index < s.active.len(),
    ensures
        s.retire(index).well_formed(),
        s.retire(index).accepted() == s.accepted(),
        s.retire(index).grid.occupied().len() == s.grid.occupied().len(),
        s.retire(index).steps_left() == s.steps_left() - 1,
{
    let t = s.retire(index);
    assert forall|i: int| 0 <= i < t.active.len() implies t.grid.holds(#[trigger] t.active[i]) by {
        if i < index {
            assert(t.active[i] == s.active[i]);
        } else {
            assert(t.active[i] == s.active[i + 1]);
        }
    }
}

/// Any two accepted points are at least `r` apart, unless exactly one cell
/// lies between the cells of the two: the sampler compares a candidate with
/// the points in the cells that touch its own, and the side of a cell,
/// doubled, is no less than `r`.
pub proof fn lemma_accepted_points_apart(s: SamplerView, p: Point, q: Point)
    requires
        s.well_formed(),
        s.accepted().contains(p),
        s.accepted().contains(q),
        p != q,
        !two_apart(s.grid.indices_of(p), s.grid.indices_of(q)),
    ensures
        p.spec_distance_squared(q) >= s.r * s.r,
{
    let a = s.grid.indices_of(p);
    let b = s.grid.indices_of(q);
    lemma_indices_enclose(s.grid, p);
    lemma_indices_enclose(s.grid, q);
    if adjacent(a, b) {
        assert(a != b);
        assert(s.grid.cells[a] == Some(p) && s.grid.cells[b] == Some(q));
    } else {
        lemma_far_cells_are_apart(s, p, q);
    }
}

/// Any two accepted points are at least the side of a cell apart, `r` over
/// the square root of two rounded down, whichever cells they lie in.
pub proof fn lemma_accepted_points_a_cell_apart(s: SamplerView, p: Point, q: Point)
    requires
        s.well_formed(),
        s.accepted().contains(p),
        s.accepted().contains(q),
        p != q,
    ensures
        p.spec_distance_squared(q) >= s.grid.cell_size * s.grid.cell_size,
{
    let side = s.grid.cell_size as int;
    let r = s.r as int;
    let a = s.grid.indices_of(p);
    let b = s.grid.indices_of(q);
    assert(side * side <= r * r) by (nonlinear_arith)
        requires
            2 * side * side <= r * r,
    ;
    if two_apart(a, b) {
        lemma_indices_enclose(s.grid, p);
        lemma_indices_enclose(s.grid, q);
        let dx = p.x - q.x;
        let dy = p.y - q.y;
        assert(dx * dx >= 0) by (nonlinear_arith);
        assert(dy * dy >= 0) by (nonlinear_arith);
        if b.0 >= a.0 + 2 || a.0 >= b.0 + 2 {
            lemma_gap_of_one_cell(
                a.0,
                b.0,
                side,
                p.x - s.grid.domain.left,
                q.x - s.grid.domain.left,
            );
            assert(dx * dx >= side * side) by (nonlinear_arith)
                requires
                    dx >= side || -dx >= side,
                    side >= 1,
            ;
        } else {
            lemma_gap_of_one_cell(
                a.1,
                b.1,
                side,
                s.grid.domain.top - p.y,
                s.grid.domain.top - q.y,
            );
            assert(dy * dy >= side * side) by (nonlinear_arith)
                requires
                    dy >= side || -dy >= side,
                    side >= 1,
            ;
        }
    } else {
        lemma_accepted_points_apart(s, p, q);
    }
}

/// Every accepted point lies in the domain, its edges included.
pub proof fn lemma_accepted_points_in_domain(s: SamplerView, p: Point)
    requires
        s.accepted().contains(p),
    ensures
        s.grid.domain.spec_contains(p),
{
}

/// The number of rounds that are left is never negative, and a sampler with
/// none left is finished: since every round takes one off, a sampler is
/// finished after `steps_left` rounds at the latest.
pub proof fn lemma_steps_left_bound(s: SamplerView)
    requires
        s.well_formed(),
    ensures
        s.steps_left() >= s.active.len() >= 0,
        s.steps_left() == 0 ==> s.finished(),
{
    lemma_occupied_bounded(s.grid);
}

/// A finished sampler allows no round, so that it stays as it is, finished.
pub proof fn lemma_finished_allows_no_round(s: SamplerView, index: int, offsets: Seq<Point>)
    requires
        s.finished(),
    ensures
        !s.is_round(index, offsets),
{
}

/// Encapsulates the data of Bridson's Poisson-disc sampling: the minimum
/// distance `r`, the number of attempts per round, the grid that holds the
/// accepted points and the list of the active ones.
pub struct PoissonDiscSampler {
    r: u32,
    k: u8,
    grid: Grid,
    active_points: Vec<Point>,
}

impl View for PoissonDiscSampler {
    type V = SamplerView;

    closed spec fn view(&self) -> SamplerView {
        SamplerView {
            r: self.r as nat,
            k: self.k as nat,
            grid: self.grid@,
            active: self.active_points@,
        }
    }
}

/// What keeps a sampler from being made with these parameters, if anything.
pub open spec fn config_error(domain: Domain, r: u32, k: u8) -> Option<SamplerError> {
    if !domain.well_formed() {
        Some(SamplerError::InvalidDomain)
    } else if r < 2 {
        Some(SamplerError::RadiusTooSmall)
    } else if k == 0 {
        Some(SamplerError::NoAttempts)
    } else if !Grid::spec_fits(spec_floor_div_sqrt2(r as int) as u32, domain) {
        Some(SamplerError::GridTooLarge)
    } else {
        None
    }
}

/// What keeps a sampler from being made with these parameters and this first
/// point, if anything.
pub open spec fn seed_error(domain: Domain, r: u32, k: u8, seed: Point) -> Option<SamplerError> {
    match config_error(domain, r, k) {
        Some(e) => Some(e),
        None => if domain.spec_contains(seed) {
            None
        } else {
            Some(SamplerError::SeedOutsideDomain)
        },
    }
}

/// The side of the cells of a sampler with these parameters, or what keeps
/// the sampler from being made.
fn cell_size_for(domain: &Domain, r: u32, k: u8) -> (side: Result<u32, SamplerError>)
    ensures
        match side {
            Ok(s) => {
                &&& config_error(*domain, r, k) is None
                &&& s >= 1
                &&& s == spec_floor_div_sqrt2(r as int)
                &&& is_floor_div_sqrt2(s as int, r as int)
            },
            Err(e) => config_error(*domain, r, k) == Some(e),
        },
{
    if !domain.is_well_formed() {
        Err(SamplerError::InvalidDomain)
    } else if r < 2 {
        Err(SamplerError::RadiusTooSmall)
    } else if k == 0 {
        Err(SamplerError::NoAttempts)
    } else {
        let cell_size = floor_div_sqrt2(r);
        assert(cell_size >= 1) by (nonlinear_arith)
            requires
                r >= 2,
                cell_size >= 0,
                r * r < 2 * (cell_size + 1) * (cell_size + 1),
        ;
        if !Grid::fits(cell_size, domain) {
            Err(SamplerError::GridTooLarge)
        } else {
            Ok(cell_size)
        }
    }
}

/// Tests the parameters of a sampler.
pub fn check_config(domain: &Domain, r: u32, k: u8) -> (error: Option<SamplerError>)
    ensures
        error == config_error(*domain, r, k),
{
    match cell_size_for(domain, r, k) {
        Ok(_) => None,
        Err(e) => Some(e),
    }
}

impl PoissonDiscSampler {
    /// The count that the grid keeps of its occupied cells is right.
    pub closed spec fn counted(&self) -> bool {
        self.grid.counted()
    }

    /// The sampler is well formed, and so is what it keeps beside its view.
    pub open spec fn wf(&self) -> bool {
        self@.well_formed() && self.counted()
    }

    /// The sampler with cells of side `cell_size` whose first point is `seed`.
    fn seeded(domain: Domain, r: u32, k: u8, cell_size: u32, seed: Point) -> (s: PoissonDiscSampler)
        requires
            config_error(domain, r, k) is None,
            cell_size >= 1,
            cell_size == spec_floor_div_sqrt2(r as int),
            is_floor_div_sqrt2(cell_size as int, r as int),
            domain.spec_contains(seed),
        ensures
            s.wf(),
            s@.r == r,
            s@.k == k,
            s@.grid.domain == domain,
            s@.grid.cell_size == cell_size,
            s@.active == seq![seed],
            s@.accepted() == set![seed],
            s@.grid.occupied().len() == 1,
    {
        let mut grid = Grid::new(cell_size, domain);
        let mut active_points: Vec<Point> = Vec::new();
        let ghost empty = SamplerView {
            r: r as nat,
            k: k as nat,
            grid: grid@,
            active: Seq::<Point>::empty(),
        };
        proof {
            lemma_empty_sampler(empty);
            lemma_accept(empty, seed);
            assert(empty.accepted().insert(seed) =~= set![seed]);
        }
        grid.insert(seed);
        active_points.push(seed);
        let sampler = PoissonDiscSampler { r, k, grid, active_points };
        proof {
            assert(sampler@.active =~= seq![seed]);
            assert(sampler@ == empty.accept(seed));
        }
        sampler
    }

    /// A sampler over `domain` whose first point is `seed`, or the reason why
    /// there is none.
    pub fn with_seed(domain: Domain, r: u32, k: u8, seed: Point) -> (made: Result<
        PoissonDiscSampler,
        SamplerError,
    >)
        ensures
            match made {
                Ok(s) => {
                    &&& seed_error(domain, r, k, seed) is None
                    &&& s.wf()
                    &&& s@.r == r
                    &&& s@.k == k
                    &&& s@.grid.domain == domain
                    &&& s@.grid.cell_size == spec_floor_div_sqrt2(r as int)
                    &&& s@.active == seq![seed]
                    &&& s@.accepted() == set![seed]
                    &&& s@.grid.occupied().len() == 1
                },
                Err(e) => seed_error(domain, r, k, seed) == Some(e),
            },
    {
        match cell_size_for(&domain, r, k) {
            Err(e) => Err(e),
            Ok(cell_size) => {
                if domain.contains(&seed) {
                    Ok(Self::seeded(domain, r, k, cell_size, seed))
                } else {
                    Err(SamplerError::SeedOutsideDomain)
                }
            },
        }
    }

    /// A sampler over `domain` whose first point is drawn at random from the
    /// domain, or the reason why there is none.
    pub fn new(domain: Domain, r: u32, k: u8) -> (made: Result<PoissonDiscSampler, SamplerError>)
        ensures
            match made {
                Ok(s) => {
                    &&& config_error(domain, r, k) is None
                    &&& s.wf()
                    &&& s@.r == r
                    &&& s@.k == k
                    &&& s@.grid.domain == domain
                    &&& s@.grid.cell_size == spec_floor_div_sqrt2(r as int)
                    &&& s@.active.len() == 1
                    &&& domain.spec_contains(s@.active[0])
                    &&& s@.accepted() == set![s@.active[0]]
                    &&& s@.grid.occupied().len() == 1
                },
                Err(e) => config_error(domain, r, k) == Some(e),
            },
    {
        match cell_size_for(&domain, r, k) {
            Err(e) => Err(e),
            Ok(cell_size) => {
                let p = Point::random_from_domain(&domain);
                Ok(Self::seeded(domain, r, k, cell_size, p))
            },
        }
    }

    /// The minimum distance between two points.
    pub fn r(&self) -> (r: u32)
        ensures
            r == self@.r,
    {
        self.r
    }

    /// Whether the sampling has finished: no active point is left.
    pub fn is_finished(&self) -> (finished: bool)
        ensures
            finished == self@.finished(),
    {
        self.active_points.len() == 0
    }

    /// The number of active points.
    pub fn active_len(&self) -> (len: usize)
        ensures
            len == self@.active.len(),
    {
        self.active_points.len()
    }

    /// The number of points accepted so far, which is the number of occupied
    /// cells of the grid.
    pub fn occupied_cells(&self) -> (count: usize)
        requires
            self.wf(),
        ensures
            count == self@.grid.occupied().len(),
    {
        self.grid.occupied_cells()
    }

    /// Whether the cell `(col, row)` is empty or holds a point at least `r`
    /// away from `point`.
    fn cell_is_clear(&self, col: usize, row: usize, point: &Point) -> (clear: bool)
        requires
            self@.grid.in_range(col as int, row as int),
        ensures
            clear == self@.clear_of(col as int, row as int, *point),
    {
        match self.grid.get(col, row) {
            None => true,
            Some(p) => p.is_apart(point, self.r),
        }
    }

    /// Checks if a point is a valid sample: it lies in the domain, and each
    /// cell of the window around its cell is empty or holds a point that is
    /// far enough away.
    pub fn check_point(&self, point: &Point) -> (status: SampleStatus)
        requires
            self.wf(),
        ensures
            (status == SampleStatus::Valid) == self@.valid_sample(*point),
    {
        if !self.grid.domain().contains(point) {
            return SampleStatus::Invalid;
        }
        let (x_index, y_index) = self.grid.calculate_grid_indices(point);
        let (cols, rows) = self.grid.dimensions();
        let x_start: usize = if x_index >= 1 {
            x_index - 1
        } else {
            0
        };
        let x_end: usize = if x_index + 1 <= cols - 1 {
            x_index + 1
        } else {
            cols - 1
        };
        let y_start: usize = if y_index >= 1 {
            y_index - 1
        } else {
            0
        };
        let y_end: usize = if y_index + 1 <= rows - 1 {
            y_index + 1
        } else {
            rows - 1
        };
        let ghost center = (x_index as int, y_index as int);
        let mut col: usize = x_start;
        while col <= x_end
            invariant
                self@.grid.indices_of(*point) == center,
                self@.grid.domain.spec_contains(*point),
                x_start <= col <= x_end + 1,
                x_end < cols == self@.grid.cols,
                y_start <= y_end < rows == self@.grid.rows,
                forall|i: int, j: int|
                    x_start <= i < col && y_start <= j <= y_end ==> #[trigger] self@.clear_of(
                        i,
                        j,
                        *point,
                    ),
                forall|i: int, j: int|
                    self@.in_window(center, i, j) ==> x_start <= i <= x_end && y_start <= j
                        <= y_end,
                forall|i: int, j: int|
                    x_start <= i <= x_end && y_start <= j <= y_end ==> self@.in_window(center, i, j),
            decreases x_end + 1 - col,
        {
            let mut row: usize = y_start;
            while row <= y_end
                invariant
                    self@.grid.indices_of(*point) == center,
                    self@.grid.domain.spec_contains(*point),
                    x_start <= col <= x_end < cols == self@.grid.cols,
                    y_start <= row <= y_end + 1,
                    y_end < rows == self@.grid.rows,
                    forall|j: int| y_start <= j < row ==> #[trigger] self@.clear_of(col as int, j, *point),
                    forall|i: int, j: int|
                        x_start <= i <= x_end && y_start <= j <= y_end ==> self@.in_window(
                            center,
                            i,
                            j,
                        ),
                decreases y_end + 1 - row,
            {
                if !self.cell_is_clear(col, row, point) {
                    assert(self@.in_window(center, col as int, row as int));
                    return SampleStatus::Invalid;
                }
                row = row + 1;
            }
            col = col + 1;
        }
        SampleStatus::Valid
    }

    /// Makes one round of attempts around the active point `index`. Each
    /// attempt calls `draw` with `r` for an offset. An offset that is at least
    /// `r` long and less than twice `r` leads to a candidate, the point that
    /// lies at this offset from the active point; any other offset is a
    /// failed attempt. The first candidate that is a valid sample is stored
    /// in the grid, joins the active points and is returned; no further
    /// attempt is made. After `k` attempts without one, the active point is
    /// given up and `None` is returned.
    pub fn sample_around<F: Fn(u32) -> Point>(&mut self, index: usize, draw: F) -> (sampled: Option<
        Point,
    >)
        requires
            old(self).wf(),
            index < old(self)@.active.len(),
            call_requires(draw, (old(self)@.r as u32,)),
        ensures
            final(self).wf(),
            exists|offsets: Seq<Point>|
                {
                    &&& #[trigger] old(self)@.is_round(index as int, offsets)
                    &&& drawn_with(draw, old(self)@.r, offsets)
                    &&& sampled == old(self)@.round_sample(index as int, offsets)
                    &&& final(self)@ == old(self)@.after_round(index as int, offsets)
                },
            match sampled {
                Some(p) => {
                    &&& old(self)@.around(index as int, p)
                    &&& old(self)@.valid_sample(p)
                    &&& old(self)@.grid.domain.spec_contains(p)
                    &&& final(self)@ == old(self)@.accept(p)
                    &&& final(self)@.accepted() == old(self)@.accepted().insert(p)
                    &&& !old(self)@.accepted().contains(p)
                    &&& final(self)@.grid.occupied().len() == old(self)@.grid.occupied().len() + 1
                },
                None => {
                    &&& final(self)@ == old(self)@.retire(index as int)
                    &&& final(self)@.accepted() == old(self)@.accepted()
                    &&& final(self)@.grid.occupied().len() == old(self)@.grid.occupied().len()
                },
            },
            final(self)@.steps_left() == old(self)@.steps_left() - 1,
    {
        let active_point = self.active_points[index];
        let mut counter: u8 = 0;
        let mut new_point: Option<Point> = None;
        let ghost mut offsets: Seq<Point> = Seq::empty();
        while counter < self.k && new_point.is_none()
            invariant
                *self == *old(self),
                self.wf(),
                index < self@.active.len(),
                active_point == self@.active[index as int],
                call_requires(draw, (self.r,)),
                counter <= self.k,
                offsets.len() == counter,
                drawn_with(draw, self@.r, offsets),
                forall|i: int|
                    0 <= i < offsets.len() - 1 ==> !self@.valid_offset(
                        index as int,
                        #[trigger] offsets[i],
                    ),
                match new_point {
                    Some(c) => {
                        &&& offsets.len() >= 1
                        &&& self@.valid_offset(index as int, offsets.last())
                        &&& self@.candidate(index as int, offsets.last()) == Some(c)
                    },
                    None => offsets.len() >= 1 ==> !self@.valid_offset(
                        index as int,
                        offsets.last(),
                    ),
                },
            decreases self.k - counter,
        {
            counter = counter + 1;
            let p = draw(self.r);
            proof {
                offsets = offsets.push(p);
            }
            if p.in_annulus(self.r) {
                match active_point.moved_by(&p) {
                    Some(candidate) => {
                        match self.check_point(&candidate) {
                            SampleStatus::Valid => {
                                new_point = Some(candidate);
                            },
                            SampleStatus::Invalid => {},
                        }
                    },
                    None => {},
                }
            }
        }
        proof {
            assert(old(self)@.is_round(index as int, offsets));
            lemma_round_sample_around(old(self)@, index as int, offsets);
        }
        match new_point {
            None => {
                proof {
                    lemma_retire(self@, index as int);
                }
                self.active_points.remove(index);
                None
            },
            Some(p) => {
                proof {
                    lemma_accept(self@, p);
                }
                self.grid.insert(p);
                self.active_points.push(p);
                Some(p)
            },
        }
    }

    /// Samples a new point: picks one of the active points at random and
    /// makes one round of attempts around it, as `sample_around` does.
    /// Returns the new point, or `None` where the round found none and the
    /// active point was given up.
    pub fn sample<F: Fn(u32) -> Point>(&mut self, draw: F) -> (sampled: Option<Point>)
        requires
            old(self).wf(),
            !old(self)@.finished(),
            call_requires(draw, (old(self)@.r as u32,)),
        ensures
            final(self).wf(),
            exists|index: int, offsets: Seq<Point>|
                {
                    &&& #[trigger] old(self)@.is_round(index, offsets)
                    &&& drawn_with(draw, old(self)@.r, offsets)
                    &&& sampled == old(self)@.round_sample(index, offsets)
                    &&& final(self)@ == old(self)@.after_round(index, offsets)
                },
            match sampled {
                Some(p) => {
                    &&& exists|index: int| #[trigger] old(self)@.around(index, p)
                    &&& old(self)@.valid_sample(p)
                    &&& old(self)@.grid.domain.spec_contains(p)
                    &&& final(self)@ == old(self)@.accept(p)
                    &&& final(self)@.accepted() == old(self)@.accepted().insert(p)
                    &&& !old(self)@.accepted().contains(p)
                    &&& final(self)@.grid.occupied().len() == old(self)@.grid.occupied().len() + 1
                },
                None => {
                    &&& exists|index: int|
                        0 <= index < old(self)@.active.len() && final(self)@
                            == #[trigger] old(self)@.retire(index)
                    &&& final(self)@.accepted() == old(self)@.accepted()
                    &&& final(self)@.grid.occupied().len() == old(self)@.grid.occupied().len()
                },
            },
            final(self)@.steps_left() == old(self)@.steps_left() - 1,
    {
        let index = random_index(self.active_points.len());
        let sampled = self.sample_around(index, draw);
        proof {
            match sampled {
                Some(p) => {
                    assert(old(self)@.around(index as int, p));
                },
                None => {
                    assert(self@ == old(self)@.retire(index as int));
                },
            }
        }
        sampled
    }

    /// Samples until no active point is left: makes round after round, each
    /// as `sample` does, and returns the points that the rounds yielded, in
    /// their order. A finished sampler is left as it is. The run comes to an
    /// end because each round takes one off the rounds that are left.
    pub fn fill<F: Fn(u32) -> Point>(&mut self, draw: F) -> (points: Vec<Point>)
        requires
            old(self).wf(),
            call_requires(draw, (old(self)@.r as u32,)),
        ensures
            final(self).wf(),
            final(self)@.finished(),
            exists|rounds: Seq<(int, Seq<Point>)>|
                {
                    &&& #[trigger] is_run(old(self)@, draw, rounds)
                    &&& final(self)@ == after_run(old(self)@, rounds)
                    &&& points@ == samples_of(old(self)@, rounds)
                },
            old(self)@.finished() ==> points@.len() == 0 && final(self)@ == old(self)@,
            final(self)@.r == old(self)@.r,
            final(self)@.k == old(self)@.k,
            final(self)@.grid.domain == old(self)@.grid.domain,
            final(self)@.accepted() == old(self)@.accepted().union(points@.to_set()),
            old(self)@.accepted().disjoint(points@.to_set()),
            points@.no_duplicates(),
            final(self)@.grid.occupied().len() == old(self)@.grid.occupied().len() + points@.len(),
            points@.len() <= old(self)@.steps_left(),
    {
        let mut points: Vec<Point> = Vec::new();
        let ghost mut rounds: Seq<(int, Seq<Point>)> = Seq::empty();
        proof {
            assert(self@.accepted() =~= old(self)@.accepted().union(points@.to_set()));
        }
        while !self.is_finished()
            invariant
                self.wf(),
                call_requires(draw, (self@.r as u32,)),
                is_run(old(self)@, draw, rounds),
                self@ == after_run(old(self)@, rounds),
                points@ == samples_of(old(self)@, rounds),
                self@.r == old(self)@.r,
                self@.k == old(self)@.k,
                self@.grid.domain == old(self)@.grid.domain,
                self@.accepted() == old(self)@.accepted().union(points@.to_set()),
                old(self)@.accepted().disjoint(points@.to_set()),
                points@.no_duplicates(),
                self@.grid.occupied().len() == old(self)@.grid.occupied().len() + points@.len(),
                points@.len() + self@.steps_left() <= old(self)@.steps_left(),
            decreases self@.steps_left(),
        {
            let ghost before = self@;
            let ghost found = points@;
            let ghost earlier = rounds;
            proof {
                lemma_steps_left_bound(self@);
            }
            let sampled = self.sample(&draw);
            proof {
                let (index, offsets) = choose|index: int, offsets: Seq<Point>|
                    {
                        &&& #[trigger] before.is_round(index, offsets)
                        &&& drawn_with(&draw, before.r, offsets)
                        &&& sampled == before.round_sample(index, offsets)
                        &&& self@ == before.after_round(index, offsets)
                    };
                assert(drawn_with(draw, before.r, offsets));
                rounds = earlier.push((index, offsets));
                assert(rounds.drop_last() =~= earlier);
                assert(rounds.last() == (index, offsets));
            }
            match sampled {
                Some(p) => {
                    points.push(p);
                    proof {
                        found.lemma_push_to_set_commute(p);
                        assert(!found.to_set().contains(p));
                        assert(self@.accepted() =~= old(self)@.accepted().union(
                            points@.to_set(),
                        ));
                        assert forall|i: int, j: int|
                            0 <= i < points@.len() && 0 <= j < points@.len() && i
                                != j implies points@[i] != points@[j] by {
                            if i < found.len() {
                                assert(found.to_set().contains(found[i]));
                            }
                            if j < found.len() {
                                assert(found.to_set().contains(found[j]));
                            }
                        }
                    }
                },
                None => {},
            }
        }
        proof {
            lemma_steps_left_bound(self@);
            if old(self)@.finished() {
                lemma_finished_allows_no_run(old(self)@, draw, rounds);
            }
        }
        points
    }
}

} // verus!

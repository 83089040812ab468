//! The uniform grid laid over the sampling domain: one slot per cell, so that
//! the points near a position are found without a search through all of them.
use vstd::prelude::*;
use vstd::relations::injective_on;
use vstd::set_lib::{lemma_int_range, lemma_len_subset, lemma_map_size, lemma_set_disjoint_lens, set_int_range};
use crate::geometry::coordinates::{convert_to_upper_left_origin, upper_left_origin};
use crate::geometry::{Domain, Point};
use crate::numeric::{ceil_div, lemma_ceil_div_bounds, lemma_floor_div_bounds, spec_ceil_div};

verus! {

/// The largest number of cells that a grid may have.
pub const MAX_CELLS: usize = 0x100_0000;

/// The slots of a grid, one for each cell, addressed by column and row. It
/// holds an `ndarray::Array2`; the proofs know of it only what the functions
/// below state.
#[verifier::external_body]
pub struct CellArray {
    slots: ndarray::Array2<Option<Point>>,
}

/// What the slots of an array hold, by column and row.
pub uninterp spec fn array_cells(a: CellArray) -> Map<(int, int), Option<Point>>;

/// The numbers of columns and of rows that an array was made with.
pub uninterp spec fn array_dim(a: CellArray) -> (nat, nat);

/// The indices of a grid of `cols` columns and `rows` rows.
pub open spec fn cell_rectangle(cols: nat, rows: nat) -> Set<(int, int)> {
    Set::new(|k: (int, int)| 0 <= k.0 < cols && 0 <= k.1 < rows)
}

/// Calls `ndarray::Array2::from_elem` with the shape `(cols, rows)` and the
/// element `None`: an array of that shape whose slots are all empty. The call
/// panics where the product of the axis lengths that are not zero exceeds
/// `isize::MAX`, and so does the allocation where the slots take more bytes
/// than that. With no empty axis that product is the number of slots, and
/// `MAX_CELLS` slots of at most 16 bytes stay below the limit.
#[verifier::external_body]
fn array_from_elem(cols: usize, rows: usize) -> (a: CellArray)
    requires
        1 <= cols,
        1 <= rows,
        cols * rows <= MAX_CELLS,
    ensures
        array_dim(a) == (cols as nat, rows as nat),
        array_cells(a) == Map::new(
            |k: (int, int)| cell_rectangle(cols as nat, rows as nat).contains(k),
            |k: (int, int)| None::<Point>,
        ),
{
    CellArray { slots: ndarray::Array2::from_elem((cols, rows), None) }
}

/// Calls `ndarray::ArrayBase::dim`: the shape that the array was made with.
#[verifier::external_body]
fn array_shape(a: &CellArray) -> (dim: (usize, usize))
    ensures
        (dim.0 as nat, dim.1 as nat) == array_dim(*a),
{
    a.slots.dim()
}

/// Indexes the array with `[col, row]` (`Index` of `ndarray::ArrayBase`),
/// which panics outside the array's shape, and copies the slot out.
#[verifier::external_body]
fn array_get(a: &CellArray, col: usize, row: usize) -> (slot: Option<Point>)
    requires
        col < array_dim(*a).0,
        row < array_dim(*a).1,
    ensures
        slot == array_cells(*a)[(col as int, row as int)],
{
    a.slots[[col, row]]
}

/// Assigns to the slot `[col, row]` (`IndexMut` of `ndarray::ArrayBase`),
/// which panics outside the array's shape. The shape and the other slots
/// stay as they were.
#[verifier::external_body]
fn array_set(a: &mut CellArray, col: usize, row: usize, point: Point)
    requires
        col < array_dim(*old(a)).0,
        row < array_dim(*old(a)).1,
    ensures
        array_dim(*final(a)) == array_dim(*old(a)),
        array_cells(*final(a)) == array_cells(*old(a)).insert(
            (col as int, row as int),
            Some(point),
        ),
{
    a.slots[[col, row]] = Some(point);
}

/// A grid as a mathematical value.
pub struct GridView {
    /// The side of a cell.
    pub cell_size: nat,
    /// The rectangle that the grid covers.
    pub domain: Domain,
    /// The number of columns.
    pub cols: nat,
    /// The number of rows.
    pub rows: nat,
    /// What each cell holds, by column and row.
    pub cells: Map<(int, int), Option<Point>>,
}

impl GridView {
    /// Whether `(col, row)` is the index of a cell.
    pub open spec fn in_range(self, col: int, row: int) -> bool {
        0 <= col < self.cols && 0 <= row < self.rows
    }

    /// The column of the horizontal position `x`: its distance from the left
    /// edge in cells, rounded down. The last column takes the right edge in.
    pub open spec fn column_of(self, x: int) -> int {
        let c = (x - self.domain.left) / (self.cell_size as int);
        if c < self.cols - 1 {
            c
        } else {
            self.cols - 1
        }
    }

    /// The row of the vertical position `y`: its distance below the top edge
    /// in cells, rounded down. The last row takes the bottom edge in.
    pub open spec fn row_of(self, y: int) -> int {
        let r = (self.domain.top - y) / (self.cell_size as int);
        if r < self.rows - 1 {
            r
        } else {
            self.rows - 1
        }
    }

    /// The cell of a point of the domain, as column and row.
    pub open spec fn indices_of(self, point: Point) -> (int, int) {
        (self.column_of(point.x as int), self.row_of(point.y as int))
    }

    /// The cells that hold a point.
    pub open spec fn occupied(self) -> Set<(int, int)> {
        Set::new(|k: (int, int)| self.in_range(k.0, k.1) && self.cells[k] is Some)
    }

    /// Whether `point` is stored in the grid.
    pub open spec fn holds(self, point: Point) -> bool {
        self.domain.spec_contains(point) && self.cells[self.indices_of(point)] == Some(point)
    }

    /// The grid after `point` was stored in its cell.
    pub open spec fn with_point(self, point: Point) -> GridView {
        GridView { cells: self.cells.insert(self.indices_of(point), Some(point)), ..self }
    }

    /// The cells cover the domain, and every stored point lies in the domain
    /// and in the cell that holds it.
    pub open spec fn well_formed(self) -> bool {
        &&& self.domain.well_formed()
        &&& self.cell_size >= 1
        &&& self.cols == spec_ceil_div(self.domain.spec_w(), self.cell_size as int)
        &&& self.rows == spec_ceil_div(self.domain.spec_h(), self.cell_size as int)
        &&& self.cols * self.rows <= MAX_CELLS
        &&& forall|col: int, row: int|
            self.in_range(col, row) ==> match #[trigger] self.cells[(col, row)] {
                Some(p) => self.domain.spec_contains(p) && self.indices_of(p) == (col, row),
                None => true,
            }
    }
}

/// A grid of `cols` columns and `rows` rows has `cols * rows` cells.
pub proof fn lemma_cell_rectangle_size(cols: nat, rows: nat)
    ensures
        cell_rectangle(cols, rows).finite(),
        cell_rectangle(cols, rows).len() == cols * rows,
    decreases cols,
{
    if cols == 0 {
        assert(cell_rectangle(cols, rows) =~= Set::empty());
        assert(cols * rows == 0) by (nonlinear_arith)
            requires
                cols == 0,
        ;
    } else {
        let c = (cols - 1) as nat;
        lemma_cell_rectangle_size(c, rows);
        let column = Set::new(|k: (int, int)| k.0 == c && 0 <= k.1 < rows);
        let range = set_int_range(0, rows as int);
        let f = |j: int| (c as int, j);
        lemma_int_range(0, rows as int);
        assert(injective_on(f, range));
        assert forall|k: (int, int)| column.contains(k) implies range.map(f).contains(k) by {
            assert(range.contains(k.1) && k == f(k.1));
        }
        assert(range.map(f) =~= column);
        lemma_map_size(range, column, f);
        assert(cell_rectangle(cols, rows) =~= cell_rectangle(c, rows) + column);
        assert(cell_rectangle(c, rows).disjoint(column));
        lemma_set_disjoint_lens(cell_rectangle(c, rows), column);
        assert(cols * rows == c * rows + rows) by (nonlinear_arith)
            requires
                cols == c + 1,
        ;
    }
}

/// The occupied cells of a grid are finitely many, and no more than its
/// cells.
pub proof fn lemma_occupied_bounded(grid: GridView)
    ensures
        grid.occupied().finite(),
        grid.occupied().len() <= grid.cols * grid.rows,
{
    lemma_cell_rectangle_size(grid.cols, grid.rows);
    assert(grid.occupied().subset_of(cell_rectangle(grid.cols, grid.rows)));
    lemma_len_subset(grid.occupied(), cell_rectangle(grid.cols, grid.rows));
}

/// A point of the domain has a cell, and that cell encloses it: measured from
/// the upper left corner, the point lies between the cell's near edges and,
/// at most, its far edges.
pub proof fn lemma_indices_enclose(grid: GridView, point: Point)
    requires
        grid.well_formed(),
        grid.domain.spec_contains(point),
    ensures
        grid.in_range(grid.indices_of(point).0, grid.indices_of(point).1),
        ({
            let (col, row) = grid.indices_of(point);
            let (x, y) = upper_left_origin(point, grid.domain);
            &&& col * grid.cell_size <= x <= (col + 1) * grid.cell_size
            &&& row * grid.cell_size <= y <= (row + 1) * grid.cell_size
        }),
{
    let s = grid.cell_size as int;
    let (x, y) = upper_left_origin(point, grid.domain);
    lemma_axis_enclosed(x, grid.domain.spec_w(), s);
    lemma_axis_enclosed(y, grid.domain.spec_h(), s);
}

/// Along one axis of length `len`, cut into cells of side `s`: a position `x`
/// has the cell `x / s`, or the last one, and lies within it.
proof fn lemma_axis_enclosed(x: int, len: int, s: int)
    requires
        0 <= x <= len,
        0 < len,
        0 < s,
    ensures
        ({
            let n = spec_ceil_div(len, s);
            let c = if x / s < n - 1 {
                x / s
            } else {
                n - 1
            };
            0 <= c < n && c * s <= x <= (c + 1) * s
        }),
{
    let n = spec_ceil_div(len, s);
    let q = x / s;
    lemma_ceil_div_bounds(len, s);
    lemma_floor_div_bounds(x, s);
    if q >= n - 1 {
        assert(q * s >= (n - 1) * s) by (nonlinear_arith)
            requires
                q >= n - 1,
                0 < s,
        ;
        assert((n - 1 + 1) * s == n * s);
    }
}

/// A grid on top of a domain. Each of its cells holds at most one point.
pub struct Grid {
    cell_size: u32,
    domain: Domain,
    internal_array: CellArray,
    occupied: usize,
}

impl View for Grid {
    type V = GridView;

    closed spec fn view(&self) -> GridView {
        GridView {
            cell_size: self.cell_size as nat,
            domain: self.domain,
            cols: array_dim(self.internal_array).0,
            rows: array_dim(self.internal_array).1,
            cells: array_cells(self.internal_array),
        }
    }
}

impl Grid {
    /// The count that the grid keeps of its occupied cells is right.
    pub closed spec fn counted(&self) -> bool {
        self.occupied == self@.occupied().len()
    }

    /// The grid is well formed, and its count of occupied cells is right.
    pub open spec fn wf(&self) -> bool {
        self@.well_formed() && self.counted()
    }

    /// Whether a grid with cells of side `cell_size` over `domain` stays
    /// within `MAX_CELLS` cells.
    pub open spec fn spec_fits(cell_size: u32, domain: Domain) -> bool {
        spec_ceil_div(domain.spec_w(), cell_size as int) * spec_ceil_div(
            domain.spec_h(),
            cell_size as int,
        ) <= MAX_CELLS
    }

    /// Whether a grid with cells of side `cell_size` over `domain` stays
    /// within `MAX_CELLS` cells.
    pub fn fits(cell_size: u32, domain: &Domain) -> (ok: bool)
        requires
            cell_size >= 1,
            domain.well_formed(),
        ensures
            ok == Self::spec_fits(cell_size, *domain),
    {
        let cols: u64 = ceil_div(domain.w() as u64, cell_size as u64);
        let rows: u64 = ceil_div(domain.h() as u64, cell_size as u64);
        proof {
            lemma_ceil_div_bounds(domain.spec_w(), cell_size as int);
            lemma_ceil_div_bounds(domain.spec_h(), cell_size as int);
        }
        if cols > MAX_CELLS as u64 || rows > MAX_CELLS as u64 {
            assert(cols * rows > MAX_CELLS) by (nonlinear_arith)
                requires
                    cols >= 1,
                    rows >= 1,
                    cols > MAX_CELLS || rows > MAX_CELLS,
            ;
            false
        } else {
            assert(cols * rows <= 0x1_0000_0000_0000) by (nonlinear_arith)
                requires
                    cols <= 0x100_0000,
                    rows <= 0x100_0000,
            ;
            cols * rows <= MAX_CELLS as u64
        }
    }

    /// An empty grid over `domain`, with as many cells of side `cell_size`
    /// in each direction as it takes to cover the domain.
    pub fn new(cell_size: u32, domain: Domain) -> (grid: Grid)
        requires
            cell_size >= 1,
            domain.well_formed(),
            Self::spec_fits(cell_size, domain),
        ensures
            grid.wf(),
            grid@.cell_size == cell_size,
            grid@.domain == domain,
            grid@.occupied() == Set::<(int, int)>::empty(),
    {
        let w: u64 = ceil_div(domain.w() as u64, cell_size as u64);
        let h: u64 = ceil_div(domain.h() as u64, cell_size as u64);
        proof {
            lemma_ceil_div_bounds(domain.spec_w(), cell_size as int);
            lemma_ceil_div_bounds(domain.spec_h(), cell_size as int);
            assert(w <= w * h && h <= w * h) by (nonlinear_arith)
                requires
                    w >= 1,
                    h >= 1,
            ;
        }
        let internal_array = array_from_elem(w as usize, h as usize);
        let grid = Grid { cell_size, domain, internal_array, occupied: 0 };
        proof {
            assert(grid@.occupied() =~= Set::<(int, int)>::empty());
        }
        grid
    }

    /// The rectangle that the grid covers.
    pub fn domain(&self) -> (domain: Domain)
        ensures
            domain == self@.domain,
    {
        self.domain
    }

    /// The side of a cell.
    pub fn cell_size(&self) -> (cell_size: u32)
        ensures
            cell_size == self@.cell_size,
    {
        self.cell_size
    }

    /// The numbers of columns and of rows.
    pub fn dimensions(&self) -> (dim: (usize, usize))
        ensures
            dim.0 == self@.cols,
            dim.1 == self@.rows,
    {
        array_shape(&self.internal_array)
    }

    /// What the cell `(col, row)` holds.
    pub fn get(&self, col: usize, row: usize) -> (slot: Option<Point>)
        requires
            self@.in_range(col as int, row as int),
        ensures
            slot == self@.cells[(col as int, row as int)],
    {
        array_get(&self.internal_array, col, row)
    }

    /// The number of cells that hold a point.
    pub fn occupied_cells(&self) -> (count: usize)
        requires
            self.wf(),
        ensures
            count == self@.occupied().len(),
    {
        self.occupied
    }

    /// The cell of `point`, as column and row.
    pub fn calculate_grid_indices(&self, point: &Point) -> (indices: (usize, usize))
        requires
            self.wf(),
            self@.domain.spec_contains(*point),
        ensures
            (indices.0 as int, indices.1 as int) == self@.indices_of(*point),
            self@.in_range(indices.0 as int, indices.1 as int),
    {
        let converted = convert_to_upper_left_origin(point, &self.domain);
        let (cols, rows) = array_shape(&self.internal_array);
        proof {
            lemma_indices_enclose(self@, *point);
            lemma_floor_div_bounds(converted.0 as int, self.cell_size as int);
            lemma_floor_div_bounds(converted.1 as int, self.cell_size as int);
        }
        let x: u64 = converted.0 as u64 / self.cell_size as u64;
        let y: u64 = converted.1 as u64 / self.cell_size as u64;
        (
            if x < (cols - 1) as u64 {
                x as usize
            } else {
                cols - 1
            },
            if y < (rows - 1) as u64 {
                y as usize
            } else {
                rows - 1
            },
        )
    }

    /// Stores `point` in its cell, in place of what the cell held.
    pub fn insert(&mut self, point: Point)
        requires
            old(self).wf(),
            old(self)@.domain.spec_contains(point),
        ensures
            final(self).wf(),
            final(self)@ == old(self)@.with_point(point),
    {
        let (col, row) = self.calculate_grid_indices(&point);
        let before = array_get(&self.internal_array, col, row);
        proof {
            lemma_occupied_bounded(self@);
        }
        array_set(&mut self.internal_array, col, row, point);
        proof {
            let key = (col as int, row as int);
            assert(self@ == old(self)@.with_point(point));
            assert(self@.occupied() =~= old(self)@.occupied().insert(key));
        }
        if before.is_none() {
            self.occupied = self.occupied + 1;
        }
    }
}

} // verus!

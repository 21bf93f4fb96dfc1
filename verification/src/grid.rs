use crate::binary64::{
    functional, is_missing, is_nan, lemma_named_patterns, total, Operation, NAN, ONE,
};
use crate::unit::Unit;
use vstd::prelude::*;
use vstd::slice::slice_subrange;

verus! {

/// A dense table of binary64 patterns, stored column after column, with one
/// unit for all of its cells.
pub struct Grid {
    entries: Vec<u64>,
    unit: Unit,
    column_length: usize,
    column_count: usize,
}

/// What a grid holds: its unit and its columns, each a sequence of
/// `column_length` cells.
pub struct GridView {
    pub unit: Unit,
    pub column_length: nat,
    pub columns: Seq<Seq<u64>>,
}

impl GridView {
    /// Every column has `column_length` cells.
    pub open spec fn wf(self) -> bool {
        forall|c: int|
            0 <= c < self.columns.len() ==> (#[trigger] self.columns[c]).len()
                == self.column_length
    }

    /// Whether `col` and `row` name a cell of the grid.
    pub open spec fn in_range(self, col: int, row: int) -> bool {
        0 <= col < self.columns.len() && 0 <= row < self.column_length
    }

    /// The grid with the cell at `col` and `row` replaced by `value`.
    pub open spec fn with_cell(self, col: int, row: int, value: u64) -> GridView {
        GridView { columns: self.columns.update(col, self.columns[col].update(row, value)), ..self }
    }

    /// The grid with the column at `col` replaced by `cells`.
    pub open spec fn with_column(self, col: int, cells: Seq<u64>) -> GridView {
        GridView { columns: self.columns.update(col, cells), ..self }
    }

    /// Whether `out` is this grid after `value`, expressed in `unit`, was
    /// written to the cell at `col` and `row`: the cell holds the value
    /// converted to the unit of the grid, as `arith` computes it, and
    /// nothing else has changed.
    pub open spec fn writes_cell<A: Fn(Operation, u64, u64) -> u64>(
        self,
        col: int,
        row: int,
        value: u64,
        unit: Unit,
        arith: &A,
        out: GridView,
    ) -> bool {
        exists|converted: u64|
            unit.converts(self.unit, arith, value, converted) && out == #[trigger] self.with_cell(
                col,
                row,
                converted,
            )
    }

    /// Whether `out` is this grid after `values`, expressed in `unit`, were
    /// written to the column at `col`: the column holds the values
    /// converted to the unit of the grid, as `arith` computes them with one
    /// conversion factor, and nothing else has changed.
    pub open spec fn writes_column<A: Fn(Operation, u64, u64) -> u64>(
        self,
        col: int,
        values: Seq<u64>,
        unit: Unit,
        arith: &A,
        out: GridView,
    ) -> bool {
        exists|converted: Seq<u64>|
            unit.converts_all(self.unit, arith, values, converted) && out
                == #[trigger] self.with_column(col, converted)
    }

    /// Whether `out` is this grid expressed in `target`: a grid of the same
    /// shape, tagged with `target`, in which every cell is the cell of this
    /// grid multiplied by one conversion factor, as `arith` computes them.
    pub open spec fn converts_to<A: Fn(Operation, u64, u64) -> u64>(
        self,
        target: Unit,
        arith: &A,
        out: GridView,
    ) -> bool {
        &&& out.unit == target
        &&& out.column_length == self.column_length
        &&& out.columns.len() == self.columns.len()
        &&& out.wf()
        &&& exists|factor: u64|
            #[trigger] self.unit.converts_by(target, arith, factor) && forall|c: int, r: int|
                self.in_range(c, r) ==> arith.ensures(
                    (Operation::Multiply, self.columns[c][r], factor),
                    #[trigger] out.columns[c][r],
                )
    }

    /// Whether some column holds a value at `row`.
    pub open spec fn row_present(self, row: int) -> bool {
        exists|c: int| 0 <= c < self.columns.len() && !is_nan(#[trigger] self.columns[c][row])
    }

    /// Whether no row of the grid holds a value.
    pub open spec fn no_row_present(self) -> bool {
        forall|r: int| 0 <= r < self.column_length ==> !self.row_present(r)
    }

    /// Whether `row` is the first row that holds a value.
    pub open spec fn is_front_row(self, row: int) -> bool {
        &&& 0 <= row < self.column_length
        &&& self.row_present(row)
        &&& forall|r: int| 0 <= r < row ==> !self.row_present(r)
    }

    /// Whether `row` is the last row that holds a value.
    pub open spec fn is_back_row(self, row: int) -> bool {
        &&& 0 <= row < self.column_length
        &&& self.row_present(row)
        &&& forall|r: int| row < r < self.column_length ==> !self.row_present(r)
    }

    /// Whether `accepted` holds of every pair that the comparison of
    /// neighbors compares: the baseline of a cell below the first row, and
    /// the cell.
    pub open spec fn neighbor_pairs_all(self, accepted: spec_fn(u64, u64) -> bool) -> bool {
        forall|c: int, r: int|
            0 <= c < self.columns.len() && 1 <= r < self.column_length ==> accepted(
                self.columns[c][baseline_row(self.columns[c], r)],
                #[trigger] self.columns[c][r],
            )
    }

    /// Whether `out` is a comparison of neighbors of this grid: a grid of
    /// the same shape, tagged with `unit`, whose first row is missing and
    /// whose every other cell is `related` to the baseline of the cell in
    /// this grid and to that cell.
    pub open spec fn compares_neighbors(
        self,
        related: spec_fn(u64, u64, u64) -> bool,
        unit: Unit,
        out: GridView,
    ) -> bool {
        &&& out.unit == unit
        &&& out.column_length == self.column_length
        &&& out.columns.len() == self.columns.len()
        &&& out.wf()
        &&& forall|c: int|
            0 <= c < self.columns.len() && 0 < self.column_length ==> (
            #[trigger] out.columns[c])[0] == NAN
        &&& forall|c: int, r: int|
            0 <= c < self.columns.len() && 1 <= r < self.column_length ==> related(
                self.columns[c][baseline_row(self.columns[c], r)],
                self.columns[c][r],
                #[trigger] out.columns[c][r],
            )
    }

    /// Whether `accepted` holds of every pair that the comparison against
    /// the row `index` compares: the cell of a column at `index`, and a cell
    /// of that column.
    pub open spec fn index_pairs_all(
        self,
        index: int,
        accepted: spec_fn(u64, u64) -> bool,
    ) -> bool {
        forall|c: int, r: int|
            self.in_range(c, r) && 0 <= index < self.column_length ==> accepted(
                self.columns[c][index],
                #[trigger] self.columns[c][r],
            )
    }

    /// Whether `out` is a comparison of this grid against its row `index`:
    /// a grid of the same shape, tagged with `unit`, in which every cell is
    /// `related` to the cell of its column at `index` in this grid and to
    /// the cell at its own place; or, where this grid has no such row, in
    /// which every cell is missing.
    pub open spec fn compares_index(
        self,
        related: spec_fn(u64, u64, u64) -> bool,
        unit: Unit,
        index: int,
        out: GridView,
    ) -> bool {
        if 0 <= index < self.column_length {
            &&& out.unit == unit
            &&& out.column_length == self.column_length
            &&& out.columns.len() == self.columns.len()
            &&& out.wf()
            &&& forall|c: int, r: int|
                self.in_range(c, r) ==> related(
                    self.columns[c][index],
                    self.columns[c][r],
                    #[trigger] out.columns[c][r],
                )
        } else {
            out == GridView::blank(unit, self.column_length, self.columns.len())
        }
    }

    /// The grid of the given shape in which every cell is missing.
    pub open spec fn blank(unit: Unit, column_length: nat, column_count: nat) -> GridView {
        GridView {
            unit,
            column_length,
            columns: Seq::new(column_count, |c: int| Seq::new(column_length, |r: int| NAN)),
        }
    }
}

/// The row against which the comparison of neighbors compares the cell at
/// `row` of a column: the nearest row above it that holds a value; where
/// none does, the first row, whatever it holds.
pub open spec fn baseline_row(column: Seq<u64>, row: int) -> int
    decreases row,
{
    if row <= 1 {
        0
    } else if !is_nan(column[row - 1]) {
        row - 1
    } else {
        baseline_row(column, row - 1)
    }
}

/// The baseline of a row lies above it; it is the first row or holds a
/// value; and every row between it and the row is missing.
pub proof fn lemma_baseline_row(column: Seq<u64>, row: int)
    requires
        1 <= row,
    ensures
        0 <= baseline_row(column, row) < row,
        baseline_row(column, row) == 0 || !is_nan(column[baseline_row(column, row)]),
        forall|r: int| baseline_row(column, row) < r < row ==> is_nan(#[trigger] column[r]),
    decreases row,
{
    if row > 1 && is_nan(column[row - 1]) {
        lemma_baseline_row(column, row - 1);
    }
}

/// A row that holds a value is its own successor's baseline, and a missing
/// row hands its baseline on.
pub proof fn lemma_baseline_row_step(column: Seq<u64>, row: int)
    requires
        1 <= row,
    ensures
        baseline_row(column, row + 1) == if is_nan(column[row]) {
            baseline_row(column, row)
        } else {
            row
        },
{
}

/// No row holds a value exactly if every cell is missing; so it is with a
/// grid that has no column or no row.
pub proof fn lemma_no_row_present(grid: GridView)
    requires
        grid.wf(),
    ensures
        grid.no_row_present() <==> forall|c: int, r: int|
            grid.in_range(c, r) ==> is_nan(#[trigger] grid.columns[c][r]),
        grid.columns.len() == 0 || grid.column_length == 0 ==> grid.no_row_present(),
{
    if grid.no_row_present() {
        assert forall|c: int, r: int| grid.in_range(c, r) implies is_nan(
            #[trigger] grid.columns[c][r],
        ) by {
            assert(!grid.row_present(r));
        }
    }
}

/// The first row that holds a value, at or above a row that does.
proof fn lemma_first_present(grid: GridView, row: int) -> (front: int)
    requires
        0 <= row < grid.column_length,
        grid.row_present(row),
    ensures
        grid.is_front_row(front),
    decreases row,
{
    if exists|r: int| 0 <= r < row && grid.row_present(r) {
        let r = choose|r: int| 0 <= r < row && grid.row_present(r);
        lemma_first_present(grid, r)
    } else {
        row
    }
}

/// The last row that holds a value, at or below a row that does.
proof fn lemma_last_present(grid: GridView, row: int) -> (back: int)
    requires
        0 <= row < grid.column_length,
        grid.row_present(row),
    ensures
        grid.is_back_row(back),
    decreases grid.column_length - row,
{
    if exists|r: int| row < r < grid.column_length && grid.row_present(r) {
        let r = choose|r: int| row < r < grid.column_length && grid.row_present(r);
        lemma_last_present(grid, r)
    } else {
        row
    }
}

/// A grid has a first and a last row that hold a value exactly if some row
/// holds one.
pub proof fn lemma_front_back_exist(grid: GridView)
    ensures
        !grid.no_row_present() <==> exists|front: int| grid.is_front_row(front),
        !grid.no_row_present() <==> exists|back: int| grid.is_back_row(back),
{
    if !grid.no_row_present() {
        let row = choose|r: int| 0 <= r < grid.column_length && grid.row_present(r);
        let front = lemma_first_present(grid, row);
        let back = lemma_last_present(grid, row);
    }
}

/// The first row that holds a value is one row, and so is the last; the
/// first is not below the last.
pub proof fn lemma_front_back_unique(grid: GridView, front: int, back: int, other: int)
    requires
        grid.is_front_row(front),
        grid.is_back_row(back),
    ensures
        front <= back,
        grid.is_front_row(other) ==> other == front,
        grid.is_back_row(other) ==> other == back,
{
}

/// Every cell that holds a value lies in a row from the first to the last
/// that hold one.
pub proof fn lemma_front_back_bound(grid: GridView, front: int, back: int, col: int, row: int)
    requires
        grid.is_front_row(front),
        grid.is_back_row(back),
        grid.in_range(col, row),
        !is_nan(grid.columns[col][row]),
    ensures
        front <= row <= back,
{
    assert(grid.row_present(row));
}

/// The comparison of neighbors leaves the first row of every column
/// missing.
pub proof fn lemma_neighbors_first_row(
    grid: GridView,
    related: spec_fn(u64, u64, u64) -> bool,
    unit: Unit,
    out: GridView,
    col: int,
)
    requires
        grid.compares_neighbors(related, unit, out),
        grid.in_range(col, 0),
    ensures
        out.in_range(col, 0),
        is_nan(out.columns[col][0]),
{
    lemma_named_patterns();
}

/// The comparison against a row that the grid does not have gives a grid of
/// the same shape in which every cell is missing.
pub proof fn lemma_index_beyond_rows(
    grid: GridView,
    related: spec_fn(u64, u64, u64) -> bool,
    unit: Unit,
    index: int,
    out: GridView,
)
    requires
        grid.compares_index(related, unit, index, out),
        index >= grid.column_length,
    ensures
        out.unit == unit,
        out.column_length == grid.column_length,
        out.columns.len() == grid.columns.len(),
        out.wf(),
        out.no_row_present(),
        forall|c: int, r: int| out.in_range(c, r) ==> is_nan(#[trigger] out.columns[c][r]),
{
    lemma_named_patterns();
    lemma_no_row_present(out);
}

/// Where the operation asked for by `arith` divides a scale factor by itself
/// into one only, and multiplies by one into the same value only, keeping
/// missing values missing, a grid converted to its own unit has the values
/// that it had: the same pattern where a cell holds a value, a missing cell
/// where it is missing.
pub proof fn lemma_convert_to_own_unit<A: Fn(Operation, u64, u64) -> u64>(
    grid: GridView,
    arith: &A,
    out: GridView,
)
    requires
        grid.wf(),
        grid.converts_to(grid.unit, arith, out),
        forall|factor: u64| #[trigger]
            arith.ensures((Operation::Divide, grid.unit.scaler(), grid.unit.scaler()), factor)
                ==> factor == ONE,
        forall|value: u64, product: u64| #[trigger]
            arith.ensures((Operation::Multiply, value, ONE), product) ==> if is_nan(value) {
                is_nan(product)
            } else {
                product == value
            },
    ensures
        out.unit == grid.unit,
        out.column_length == grid.column_length,
        out.columns.len() == grid.columns.len(),
        forall|c: int, r: int|
            grid.in_range(c, r) ==> if is_nan(grid.columns[c][r]) {
                is_nan(#[trigger] out.columns[c][r])
            } else {
                out.columns[c][r] == grid.columns[c][r]
            },
{
}

/// With arithmetic that returns one result only, a grid has one conversion
/// to a unit.
pub proof fn lemma_converts_to_once<A: Fn(Operation, u64, u64) -> u64>(
    grid: GridView,
    target: Unit,
    arith: &A,
    first: GridView,
    second: GridView,
)
    requires
        functional(arith),
        grid.converts_to(target, arith, first),
        grid.converts_to(target, arith, second),
    ensures
        first == second,
{
    lemma_same_cells(first, second);
}

/// Whether `related` holds of one value only for each pair.
pub open spec fn relates_once(related: spec_fn(u64, u64, u64) -> bool) -> bool {
    forall|base: u64, other: u64, first: u64, second: u64|
        #![trigger related(base, other, first), related(base, other, second)]
        related(base, other, first) && related(base, other, second) ==> first == second
}

/// Two grids of one shape with the same cells are one grid.
pub proof fn lemma_same_cells(first: GridView, second: GridView)
    requires
        first.wf(),
        second.wf(),
        first.unit == second.unit,
        first.column_length == second.column_length,
        first.columns.len() == second.columns.len(),
        forall|c: int, r: int|
            first.in_range(c, r) ==> #[trigger] first.columns[c][r] == second.columns[c][r],
    ensures
        first == second,
{
    assert forall|c: int| 0 <= c < first.columns.len() implies #[trigger] first.columns[c]
        =~= second.columns[c] by {}
    assert(first.columns =~= second.columns);
}

/// With a relation that holds of one value only for each pair, a grid has
/// one comparison of neighbors.
pub proof fn lemma_compares_neighbors_once(
    grid: GridView,
    related: spec_fn(u64, u64, u64) -> bool,
    unit: Unit,
    first: GridView,
    second: GridView,
)
    requires
        relates_once(related),
        grid.compares_neighbors(related, unit, first),
        grid.compares_neighbors(related, unit, second),
    ensures
        first == second,
{
    lemma_same_cells(first, second);
}

/// With a relation that holds of one value only for each pair, a grid has
/// one comparison against a row.
pub proof fn lemma_compares_index_once(
    grid: GridView,
    related: spec_fn(u64, u64, u64) -> bool,
    unit: Unit,
    index: int,
    first: GridView,
    second: GridView,
)
    requires
        relates_once(related),
        grid.compares_index(related, unit, index, first),
        grid.compares_index(related, unit, index, second),
    ensures
        first == second,
{
    if 0 <= index < grid.column_length {
        lemma_same_cells(first, second);
    }
}

/// A grid without cells has no row that holds a value, and what is derived
/// from it has no cells either.
pub proof fn lemma_empty_grid<A: Fn(Operation, u64, u64) -> u64>(
    grid: GridView,
    arith: &A,
    related: spec_fn(u64, u64, u64) -> bool,
    target: Unit,
    index: int,
    out: GridView,
)
    requires
        grid.wf(),
        grid.columns.len() == 0 || grid.column_length == 0,
        grid.converts_to(target, arith, out) || grid.compares_neighbors(related, target, out)
            || grid.compares_index(related, target, index, out),
    ensures
        grid.no_row_present(),
        out.columns.len() == grid.columns.len(),
        out.column_length == grid.column_length,
        out.columns.len() * out.column_length == 0,
        out.no_row_present(),
{
    lemma_no_row_present(grid);
    lemma_no_row_present(out);
    assert(out.columns.len() * out.column_length == 0) by (nonlinear_arith)
        requires
            out.columns.len() == 0 || out.column_length == 0,
    ;
}

impl View for Grid {
    type V = GridView;

    closed spec fn view(&self) -> GridView {
        GridView {
            unit: self.unit,
            column_length: self.column_length as nat,
            columns: Seq::new(
                self.column_count as nat,
                |c: int|
                    Seq::new(
                        self.column_length as nat,
                        |r: int| self.entries@[c * self.column_length + r],
                    ),
            ),
        }
    }
}

/// Where a column begins and ends in storage.
proof fn lemma_column_bounds(col: int, column_length: int, column_count: int)
    requires
        0 <= col < column_count,
        0 <= column_length,
    ensures
        0 <= col * column_length,
        col * column_length + column_length <= column_count * column_length,
{
    assert(0 <= col * column_length) by (nonlinear_arith)
        requires
            0 <= col,
            0 <= column_length,
    ;
    assert(col * column_length + column_length <= column_count * column_length)
        by (nonlinear_arith)
        requires
            col + 1 <= column_count,
            0 <= column_length,
    ;
}

/// Two cells share a place in storage only if they are the same cell.
proof fn lemma_places_differ(
    col: int,
    row: int,
    other_col: int,
    other_row: int,
    column_length: int,
)
    requires
        0 <= row < column_length,
        0 <= other_row < column_length,
        0 <= col,
        0 <= other_col,
    ensures
        col * column_length + row == other_col * column_length + other_row ==> col == other_col
            && row == other_row,
{
    if col < other_col {
        assert(col * column_length + column_length <= other_col * column_length)
            by (nonlinear_arith)
            requires
                col + 1 <= other_col,
                0 <= column_length,
        ;
    } else if other_col < col {
        assert(other_col * column_length + column_length <= col * column_length)
            by (nonlinear_arith)
            requires
                other_col + 1 <= col,
                0 <= column_length,
        ;
    }
}

/// A cell of one column has no place among the cells of another.
proof fn lemma_column_apart(col: int, row: int, other_col: int, column_length: int)
    requires
        0 <= row < column_length,
        0 <= col,
        0 <= other_col,
        col != other_col,
    ensures
        !(other_col * column_length <= col * column_length + row < other_col * column_length
            + column_length),
{
    if col < other_col {
        assert(col * column_length + column_length <= other_col * column_length)
            by (nonlinear_arith)
            requires
                col + 1 <= other_col,
                0 <= column_length,
        ;
    } else {
        assert(other_col * column_length + column_length <= col * column_length)
            by (nonlinear_arith)
            requires
                other_col + 1 <= col,
                0 <= column_length,
        ;
    }
}

impl Grid {
    #[verifier::type_invariant]
    spec fn storage_fits(&self) -> bool {
        self.entries.len() == self.column_count * self.column_length
    }

    /// The view of a grid is well formed whatever the grid.
    pub broadcast proof fn lemma_view_wf(&self)
        ensures
            #[trigger] self@.wf(),
    {
    }

    /// A grid of `column_count` columns of `column_length` rows in which
    /// every cell is missing.
    pub fn new(unit: Unit, column_length: usize, column_count: usize) -> (grid: Self)
        requires
            column_count * column_length <= usize::MAX,
        ensures
            grid@ == GridView::blank(unit, column_length as nat, column_count as nat),
    {
        let size: usize = column_count * column_length;
        let grid = Self { entries: vec![NAN; size], unit, column_length, column_count };
        proof {
            assert forall|c: int| 0 <= c < column_count implies #[trigger] grid@.columns[c]
                =~= GridView::blank(unit, column_length as nat, column_count as nat).columns[c] by {
                assert forall|r: int| 0 <= r < column_length implies grid@.columns[c][r] == NAN by {
                    lemma_column_bounds(c, column_length as int, column_count as int);
                }
            }
            assert(grid@.columns =~= GridView::blank(
                unit,
                column_length as nat,
                column_count as nat,
            ).columns);
        }
        grid
    }

    /// The cells of one column.
    pub fn column(&self, col_index: usize) -> (cells: &[u64])
        requires
            col_index < self@.columns.len(),
        ensures
            cells@ == self@.columns[col_index as int],
    {
        proof {
            use_type_invariant(self);
            lemma_column_bounds(
                col_index as int,
                self.column_length as int,
                self.column_count as int,
            );
        }
        let from: usize = col_index * self.column_length;
        let to: usize = from + self.column_length;
        let cells = slice_subrange(self.entries.as_slice(), from, to);
        cells
    }

    /// The cell of the column `col_index` at the row `index`.
    pub fn get(&self, col_index: usize, index: usize) -> (value: u64)
        requires
            self@.in_range(col_index as int, index as int),
        ensures
            value == self@.columns[col_index as int][index as int],
    {
        proof {
            use_type_invariant(self);
            lemma_column_bounds(
                col_index as int,
                self.column_length as int,
                self.column_count as int,
            );
        }
        self.entries[col_index * self.column_length + index]
    }

    /// Writes `value` to one cell as it is.
    fn store(&mut self, col_index: usize, index: usize, value: u64)
        requires
            old(self)@.in_range(col_index as int, index as int),
        ensures
            final(self)@ == old(self)@.with_cell(col_index as int, index as int, value),
    {
        proof {
            use_type_invariant(&*self);
            lemma_column_bounds(
                col_index as int,
                self.column_length as int,
                self.column_count as int,
            );
        }
        let place: usize = col_index * self.column_length + index;
        self.entries[place] = value;
        proof {
            let after = self@;
            let expected = old(self)@.with_cell(col_index as int, index as int, value);
            assert forall|c: int| 0 <= c < after.columns.len() implies #[trigger] after.columns[c]
                =~= expected.columns[c] by {
                lemma_column_bounds(c, self.column_length as int, self.column_count as int);
                assert forall|r: int| 0 <= r < after.column_length implies after.columns[c][r]
                    == expected.columns[c][r] by {
                    lemma_places_differ(
                        c,
                        r,
                        col_index as int,
                        index as int,
                        self.column_length as int,
                    );
                }
            }
            assert(after.columns =~= expected.columns);
        }
    }

    /// Writes `value`, expressed in `unit`, to one cell, converted to the
    /// unit of the grid.
    pub fn set<A: Fn(Operation, u64, u64) -> u64>(
        &mut self,
        col_index: usize,
        index: usize,
        value: u64,
        unit: Unit,
        arith: &A,
    ) -> (grid: &mut Self)
        requires
            old(self)@.in_range(col_index as int, index as int),
            total(arith),
        ensures
            old(self)@.writes_cell(col_index as int, index as int, value, unit, arith, grid@),
            *final(self) == *final(grid),
    {
        let factor: u64 = unit.conversion_factor(&self.unit, arith);
        let converted: u64 = arith(Operation::Multiply, value, factor);
        self.store(col_index, index, converted);
        self
    }

    /// Writes the values of `other`, expressed in `unit`, to one column,
    /// converted to the unit of the grid.
    pub fn set_column<A: Fn(Operation, u64, u64) -> u64>(
        &mut self,
        col_index: usize,
        other: &[u64],
        unit: Unit,
        arith: &A,
    ) -> (grid: &mut Self)
        requires
            col_index < old(self)@.columns.len(),
            other@.len() == old(self)@.column_length,
            total(arith),
        ensures
            old(self)@.writes_column(col_index as int, other@, unit, arith, grid@),
            *final(self) == *final(grid),
    {
        proof {
            use_type_invariant(&*self);
            lemma_column_bounds(
                col_index as int,
                self.column_length as int,
                self.column_count as int,
            );
        }
        let factor: u64 = unit.conversion_factor(&self.unit, arith);
        let from: usize = col_index * self.column_length;
        let mut row: usize = 0;
        while row < self.column_length
            invariant
                total(arith),
                row <= self.column_length,
                self.unit == old(self).unit,
                self.column_length == old(self).column_length,
                self.column_count == old(self).column_count,
                self.entries.len() == old(self).entries.len(),
                self.entries.len() == self.column_count * self.column_length,
                other@.len() == self.column_length,
                from == col_index * self.column_length,
                from + self.column_length <= self.entries.len(),
                forall|i: int|
                    0 <= i < self.entries.len() && !(from <= i < from + row) ==> self.entries@[i]
                        == old(self).entries@[i],
                forall|i: int|
                    0 <= i < row ==> arith.ensures(
                        (Operation::Multiply, other@[i], factor),
                        #[trigger] self.entries@[from + i],
                    ),
            decreases self.column_length - row,
        {
            let converted: u64 = arith(Operation::Multiply, other[row], factor);
            self.entries[from + row] = converted;
            row += 1;
        }
        proof {
            let after = self@;
            let cells = after.columns[col_index as int];
            let expected = old(self)@.with_column(col_index as int, cells);
            assert forall|c: int| 0 <= c < after.columns.len() implies #[trigger] after.columns[c]
                =~= expected.columns[c] by {
                lemma_column_bounds(c, self.column_length as int, self.column_count as int);
                assert forall|r: int| 0 <= r < after.column_length implies after.columns[c][r]
                    == expected.columns[c][r] by {
                    if c != col_index {
                        lemma_column_apart(c, r, col_index as int, self.column_length as int);
                    }
                }
            }
            assert(after.columns =~= expected.columns);
        }
        self
    }

    /// A copy of the grid expressed in `unit`, or nothing where `unit` is of
    /// another family than the unit of the grid.
    pub fn clone_convert_unit<A: Fn(Operation, u64, u64) -> u64>(
        &self,
        unit: &Unit,
        arith: &A,
    ) -> (converted: Option<Self>)
        requires
            total(arith),
        ensures
            converted is None <==> !self@.unit.same_family(*unit),
            converted matches Some(grid) ==> self@.converts_to(*unit, arith, grid@),
    {
        if !self.unit.same_unit_pattern(unit) {
            return None;
        }
        proof {
            use_type_invariant(self);
        }
        let factor: u64 = self.unit.conversion_factor(unit, arith);
        let size: usize = self.entries.len();
        let mut entries: Vec<u64> = Vec::new();
        let mut i: usize = 0;
        while i < size
            invariant
                total(arith),
                size == self.entries.len(),
                i <= size,
                entries.len() == i,
                forall|k: int|
                    0 <= k < i ==> arith.ensures(
                        (Operation::Multiply, self.entries@[k], factor),
                        #[trigger] entries@[k],
                    ),
            decreases size - i,
        {
            let converted: u64 = arith(
                Operation::Multiply,
                self.entries[i],
                factor,
            );
            entries.push(converted);
            i += 1;
        }
        let new_grid = Self {
            entries,
            unit: *unit,
            column_length: self.column_length,
            column_count: self.column_count,
        };
        proof {
            assert forall|c: int, r: int| self@.in_range(c, r) implies arith.ensures(
                (Operation::Multiply, self@.columns[c][r], factor),
                #[trigger] new_grid@.columns[c][r],
            ) by {
                lemma_column_bounds(c, self.column_length as int, self.column_count as int);
            }
        }
        Some(new_grid)
    }

    /// Tells whether some column holds a value at `row`.
    fn row_has_value(&self, row: usize) -> (present: bool)
        requires
            row < self@.column_length,
        ensures
            present == self@.row_present(row as int),
    {
        let mut i: usize = 0;
        while i < self.column_count
            invariant
                row < self@.column_length,
                i <= self.column_count,
                self.column_count == self@.columns.len(),
                forall|c: int| 0 <= c < i ==> is_nan(#[trigger] self@.columns[c][row as int]),
            decreases self.column_count - i,
        {
            if !is_missing(self.column(i)[row]) {
                return true;
            }
            i += 1;
        }
        false
    }

    /// The first row in which some column holds a value, or nothing where
    /// every cell is missing.
    pub fn front_col_index(&self) -> (front: Option<usize>)
        ensures
            front is None <==> self@.no_row_present(),
            front matches Some(row) ==> self@.is_front_row(row as int),
    {
        let mut front_index: usize = 0;
        while front_index < self.column_length
            invariant
                front_index <= self.column_length,
                self.column_length == self@.column_length,
                forall|r: int| 0 <= r < front_index ==> !self@.row_present(r),
            decreases self.column_length - front_index,
        {
            if self.row_has_value(front_index) {
                return Some(front_index);
            }
            front_index += 1;
        }
        None
    }

    /// The last row in which some column holds a value, or nothing where
    /// every cell is missing.
    pub fn back_col_index(&self) -> (back: Option<usize>)
        ensures
            back is None <==> self@.no_row_present(),
            back matches Some(row) ==> self@.is_back_row(row as int),
    {
        let mut back_index: usize = self.column_length;
        while back_index > 0
            invariant
                back_index <= self.column_length,
                self.column_length == self@.column_length,
                forall|r: int| back_index <= r < self.column_length ==> !self@.row_present(r),
            decreases back_index,
        {
            back_index -= 1;
            if self.row_has_value(back_index) {
                return Some(back_index);
            }
        }
        None
    }

    /// A grid of the same shape, tagged with `unit`, that compares every
    /// cell below the first row with its baseline: `compare_func` gets the
    /// baseline first and the cell second. The baseline of a cell is the
    /// nearest cell above it in its column that holds a value, or the first
    /// cell of the column where none does. The first row stays missing.
    pub fn clone_compare_neighbors<CompareF: Fn(u64, u64) -> u64>(
        &self,
        compare_func: CompareF,
        unit: Unit,
    ) -> (compared: Self)
        requires
            self@.neighbor_pairs_all(|base: u64, other: u64| compare_func.requires((base, other))),
        ensures
            self@.compares_neighbors(
                |base: u64, other: u64, value: u64| compare_func.ensures((base, other), value),
                unit,
                compared@,
            ),
    {
        proof {
            use_type_invariant(self);
        }
        let mut output_grid: Grid = Self::new(unit, self.column_length, self.column_count);
        let mut col_index: usize = 0;
        while col_index < self.column_count
            invariant
                self@.neighbor_pairs_all(
                    |base: u64, other: u64| compare_func.requires((base, other)),
                ),
                col_index <= self.column_count,
                self.column_count == self@.columns.len(),
                self.column_length == self@.column_length,
                output_grid@.unit == unit,
                output_grid@.column_length == self@.column_length,
                output_grid@.columns.len() == self@.columns.len(),
                forall|c: int, r: int|
                    self@.in_range(c, r) && (r == 0 || c >= col_index)
                        ==> #[trigger] output_grid@.columns[c][r] == NAN,
                forall|c: int, r: int|
                    0 <= c < col_index && 1 <= r < self@.column_length ==> compare_func.ensures(
                        (self@.columns[c][baseline_row(self@.columns[c], r)], self@.columns[c][r]),
                        #[trigger] output_grid@.columns[c][r],
                    ),
            decreases self.column_count - col_index,
        {
            let mut previous_index: usize = 0;
            let mut index: usize = 1;
            while index < self.column_length
                invariant
                    self@.neighbor_pairs_all(
                    |base: u64, other: u64| compare_func.requires((base, other)),
                ),
                    col_index < self.column_count,
                    self.column_count == self@.columns.len(),
                    self.column_length == self@.column_length,
                    1 <= index,
                    previous_index < index,
                    previous_index == baseline_row(self@.columns[col_index as int], index as int),
                    output_grid@.unit == unit,
                    output_grid@.column_length == self@.column_length,
                    output_grid@.columns.len() == self@.columns.len(),
                    forall|c: int, r: int|
                        self@.in_range(c, r) && (r == 0 || c > col_index || (c == col_index && r
                            >= index)) ==> #[trigger] output_grid@.columns[c][r] == NAN,
                    forall|c: int, r: int|
                        1 <= r < self@.column_length && (0 <= c < col_index || (c == col_index && r
                            < index)) ==> compare_func.ensures(
                            (
                                self@.columns[c][baseline_row(self@.columns[c], r)],
                                self@.columns[c][r],
                            ),
                            #[trigger] output_grid@.columns[c][r],
                        ),
                decreases self.column_length - index,
            {
                let base: u64 = self.get(col_index, previous_index);
                let other: u64 = self.get(col_index, index);
                let compared_value: u64 = compare_func(base, other);
                output_grid.store(col_index, index, compared_value);
                if !is_missing(other) {
                    previous_index = index;
                }
                index += 1;
            }
            col_index += 1;
        }
        output_grid
    }

    /// A grid of the same shape, tagged with `unit`, that compares every
    /// cell with the cell of its column at the row `index`: `compare_func`
    /// gets that cell first and the cell second. Where the grid has no row
    /// `index`, every cell of the result is missing.
    pub fn clone_compare_index<CompareF: Fn(u64, u64) -> u64>(
        &self,
        compare_func: CompareF,
        unit: Unit,
        index: usize,
    ) -> (compared: Self)
        requires
            self@.index_pairs_all(
                index as int,
                |base: u64, other: u64| compare_func.requires((base, other)),
            ),
        ensures
            self@.compares_index(
                |base: u64, other: u64, value: u64| compare_func.ensures((base, other), value),
                unit,
                index as int,
                compared@,
            ),
    {
        proof {
            use_type_invariant(self);
        }
        let mut output_grid: Grid = Self::new(unit, self.column_length, self.column_count);
        if index >= self.column_length {
            return output_grid;
        }
        let mut col_index: usize = 0;
        while col_index < self.column_count
            invariant
                self@.index_pairs_all(
                    index as int,
                    |base: u64, other: u64| compare_func.requires((base, other)),
                ),
                index < self.column_length,
                col_index <= self.column_count,
                self.column_count == self@.columns.len(),
                self.column_length == self@.column_length,
                output_grid@.unit == unit,
                output_grid@.column_length == self@.column_length,
                output_grid@.columns.len() == self@.columns.len(),
                forall|c: int, r: int|
                    self@.in_range(c, r) && c < col_index ==> compare_func.ensures(
                        (self@.columns[c][index as int], self@.columns[c][r]),
                        #[trigger] output_grid@.columns[c][r],
                    ),
            decreases self.column_count - col_index,
        {
            let base: u64 = self.get(col_index, index);
            let mut row: usize = 0;
            while row < self.column_length
                invariant
                    self@.index_pairs_all(
                    index as int,
                    |base: u64, other: u64| compare_func.requires((base, other)),
                ),
                    index < self.column_length,
                    col_index < self.column_count,
                    row <= self.column_length,
                    base == self@.columns[col_index as int][index as int],
                    self.column_count == self@.columns.len(),
                    self.column_length == self@.column_length,
                    output_grid@.unit == unit,
                    output_grid@.column_length == self@.column_length,
                    output_grid@.columns.len() == self@.columns.len(),
                    forall|c: int, r: int|
                        self@.in_range(c, r) && (c < col_index || (c == col_index && r < row))
                            ==> compare_func.ensures(
                            (self@.columns[c][index as int], self@.columns[c][r]),
                            #[trigger] output_grid@.columns[c][r],
                        ),
                decreases self.column_length - row,
            {
                let other: u64 = self.get(col_index, row);
                let compared_value: u64 = compare_func(base, other);
                output_grid.store(col_index, row, compared_value);
                row += 1;
            }
            col_index += 1;
        }
        output_grid
    }

    /// The unit of the cells.
    pub fn unit(&self) -> (unit: Unit)
        ensures
            unit == self@.unit,
    {
        self.unit
    }

    /// The number of cells.
    pub fn len(&self) -> (len: usize)
        ensures
            len == self@.columns.len() * self@.column_length,
    {
        proof {
            use_type_invariant(self);
        }
        self.entries.len()
    }

    /// The number of rows.
    pub fn column_length(&self) -> (length: usize)
        ensures
            length == self@.column_length,
    {
        self.column_length
    }

    /// The number of columns.
    pub fn column_count(&self) -> (count: usize)
        ensures
            count == self@.columns.len(),
    {
        self.column_count
    }
}

impl Clone for Grid {
    fn clone(&self) -> (copy: Self)
        ensures
            copy@ == self@,
    {
        proof {
            use_type_invariant(self);
        }
        let copy = Self {
            entries: self.entries.clone(),
            unit: self.unit,
            column_length: self.column_length,
            column_count: self.column_count,
        };
        copy
    }
}

} // verus!

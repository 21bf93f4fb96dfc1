use crate::binary64::{functional, is_missing, is_nan, total, Operation, HUNDRED, NAN, ONE};
use crate::grid::{
    lemma_compares_index_once, lemma_compares_neighbors_once, lemma_converts_to_once,
    lemma_same_cells, relates_once, Grid, GridView,
};
use crate::unit::{lemma_converts_once, PureUnit, Unit};
use vstd::prelude::*;
use vstd::string::StringExecFns;

verus! {

broadcast use crate::grid::Grid::lemma_view_wf;

/// The source grids of a set of benchmark runs, one grid for each run, and
/// the two grids of the latest report: the values and their comparison.
pub struct Manager {
    base_value_grids: Vec<Grid>,
    report: Report,
}

/// The two grids of a report. They have one shape.
struct Report {
    output_grid: Grid,
    comparison_grid: Grid,
}

/// What to report: the source grids to take, in the order in which they are
/// shown, and the key of the unit to show the values in.
pub struct Profile {
    pub selected_indicies: Vec<usize>,
    pub unit: String,
}

/// What a manager holds.
pub struct ManagerView {
    pub sources: Seq<GridView>,
    pub output: GridView,
    pub comparison: GridView,
}

/// Whether `delta` is a pattern that `arith` may return for the change from
/// `base` to `other` in percent: `(other / base - 1) * 100`.
pub open spec fn is_percent_delta<A: Fn(Operation, u64, u64) -> u64>(
    arith: &A,
    base: u64,
    other: u64,
    delta: u64,
) -> bool {
    exists|ratio: u64, excess: u64|
        {
            &&& #[trigger] arith.ensures((Operation::Divide, other, base), ratio)
            &&& #[trigger] arith.ensures((Operation::Subtract, ratio, ONE), excess)
            &&& arith.ensures((Operation::Multiply, excess, HUNDRED), delta)
        }
}

/// The change from `base` to `other` in percent, as `arith` computes it.
pub fn percent_delta<A: Fn(Operation, u64, u64) -> u64>(
    arith: &A,
    base: u64,
    other: u64,
) -> (delta: u64)
    requires
        total(arith),
    ensures
        is_percent_delta(arith, base, other, delta),
{
    let div: u64 = arith(Operation::Divide, other, base);
    let excess: u64 = arith(Operation::Subtract, div, ONE);
    arith(Operation::Multiply, excess, HUNDRED)
}

/// Whether `out` is the latest value of the column `col` of `source`, in the
/// unit `target`: the cell of the column in the last row of `source` that
/// holds a value, converted; or missing, where no row holds a value.
pub open spec fn is_latest_value<A: Fn(Operation, u64, u64) -> u64>(
    source: GridView,
    col: int,
    target: Unit,
    arith: &A,
    out: u64,
) -> bool {
    if source.no_row_present() {
        out == NAN
    } else {
        exists|row: int|
            #[trigger] source.is_back_row(row) && source.unit.converts(
                target,
                arith,
                source.columns[col][row],
                out,
            )
    }
}

/// Whether `text` is the text of a cell: the number as `two_decimals` writes
/// it, or `NaN` for a missing cell; then a space and the key of the unit.
pub open spec fn is_cell_text<T: Fn(u64) -> String>(
    two_decimals: &T,
    bits: u64,
    key: Seq<char>,
    text: Seq<char>,
) -> bool {
    if is_nan(bits) {
        text == "NaN"@ + " "@ + key
    } else {
        exists|number: String| #[trigger]
            two_decimals.ensures((bits,), number) && text == number@ + " "@ + key
    }
}

/// Whether `texts` holds the text of every cell of `cells`, in their order.
pub open spec fn is_row_text<T: Fn(u64) -> String>(
    two_decimals: &T,
    cells: Seq<u64>,
    key: Seq<char>,
    texts: Seq<Seq<char>>,
) -> bool {
    &&& texts.len() == cells.len()
    &&& forall|j: int|
        0 <= j < cells.len() ==> is_cell_text(two_decimals, cells[j], key, #[trigger] texts[j])
}

impl ManagerView {
    /// Whether the two grids of the report have one shape, with few enough
    /// columns for a matrix of two rows to each.
    pub open spec fn wf(self) -> bool {
        &&& self.output.wf()
        &&& self.comparison.wf()
        &&& self.comparison.column_length == self.output.column_length
        &&& self.comparison.columns.len() == self.output.columns.len()
        &&& 2 * self.output.columns.len() <= usize::MAX
    }

    /// Whether a report can be made of `selection` in the unit `target`.
    /// One grid alone must exist and be in a unit of the family of `target`.
    /// Of several, each must exist, the first source grid must exist, and
    /// each that holds a value must have at least its number of columns.
    pub open spec fn can_report(self, selection: Seq<usize>, target: Unit) -> bool {
        if selection.len() == 0 {
            true
        } else if selection.len() == 1 {
            &&& selection[0] < self.sources.len()
            &&& self.sources[selection[0] as int].unit.same_family(target)
            &&& 2 * self.sources[selection[0] as int].columns.len() <= usize::MAX
        } else {
            &&& self.sources.len() > 0
            &&& self.sources[0].columns.len() * selection.len() <= usize::MAX
            &&& 2 * self.sources[0].columns.len() <= usize::MAX
            &&& forall|k: int|
                0 <= k < selection.len() ==> {
                    &&& (#[trigger] selection[k]) < self.sources.len()
                    &&& !self.sources[selection[k] as int].no_row_present()
                        ==> self.sources[0].columns.len()
                        <= self.sources[selection[k] as int].columns.len()
                }
        }
    }

    /// Whether `out` gathers the latest values of the selected grids: one
    /// column for each column of the first source grid, one row for each
    /// selected grid, in the unit `target`.
    pub open spec fn gathers<A: Fn(Operation, u64, u64) -> u64>(
        self,
        selection: Seq<usize>,
        target: Unit,
        arith: &A,
        out: GridView,
    ) -> bool {
        &&& out.unit == target
        &&& out.column_length == selection.len()
        &&& out.columns.len() == self.sources[0].columns.len()
        &&& out.wf()
        &&& forall|c: int, k: int|
            out.in_range(c, k) ==> is_latest_value(
                self.sources[selection[k] as int],
                c,
                target,
                arith,
                #[trigger] out.columns[c][k],
            )
    }

    /// Whether `after` is this manager after a report of `selection` in the
    /// unit `target`. The source grids stay. With nothing selected the
    /// report stays too. Of one grid, the values are the grid converted to
    /// `target` and the comparison is that of its neighbors. Of several,
    /// the values are their latest values gathered and the comparison is
    /// that against the first selected grid. Every comparison is the change
    /// in percent.
    pub open spec fn reports<A: Fn(Operation, u64, u64) -> u64>(
        self,
        selection: Seq<usize>,
        target: Unit,
        arith: &A,
        after: ManagerView,
    ) -> bool {
        let percentage = Unit::PureUnit(PureUnit::Percentage);
        let delta = |base: u64, other: u64, value: u64| is_percent_delta(arith, base, other, value);
        &&& after.sources == self.sources
        &&& if selection.len() == 0 {
            after.output == self.output && after.comparison == self.comparison
        } else if selection.len() == 1 {
            let source = self.sources[selection[0] as int];
            &&& source.converts_to(target, arith, after.output)
            &&& source.compares_neighbors(delta, percentage, after.comparison)
        } else {
            &&& self.gathers(selection, target, arith, after.output)
            &&& after.output.compares_index(delta, percentage, 0, after.comparison)
        }
    }

    /// The cells that the row `j` of the text matrix shows: the rows `2 * i`
    /// and `2 * i + 1` show the column `i` of the values and of the
    /// comparison.
    pub open spec fn shown_cells(self, j: int) -> Seq<u64> {
        if j % 2 == 0 {
            self.output.columns[j / 2]
        } else {
            self.comparison.columns[j / 2]
        }
    }

    /// The key of the unit that the row `j` of the text matrix shows.
    pub open spec fn shown_key(self, j: int) -> Seq<char> {
        if j % 2 == 0 {
            self.output.unit.key()
        } else {
            self.comparison.unit.key()
        }
    }

    /// Whether `matrix` is the report as text: two rows for each column of
    /// the values, the first with the texts of the values and the second
    /// with the texts of the comparison.
    pub open spec fn renders<T: Fn(u64) -> String>(
        self,
        two_decimals: &T,
        matrix: Seq<Seq<Seq<char>>>,
    ) -> bool {
        &&& matrix.len() == 2 * self.output.columns.len()
        &&& forall|j: int|
            0 <= j < matrix.len() ==> is_row_text(
                two_decimals,
                self.shown_cells(j),
                self.shown_key(j),
                #[trigger] matrix[j],
            )
    }
}

/// With arithmetic that returns one result only, the change in percent is
/// one value for each pair.
pub proof fn lemma_percent_delta_once<A: Fn(Operation, u64, u64) -> u64>(arith: &A)
    requires
        functional(arith),
    ensures
        relates_once(
            |base: u64, other: u64, value: u64| is_percent_delta(arith, base, other, value),
        ),
{
}

/// With arithmetic that returns one result only, a column of a grid has one
/// latest value in a unit.
pub proof fn lemma_latest_value_once<A: Fn(Operation, u64, u64) -> u64>(
    source: GridView,
    col: int,
    target: Unit,
    arith: &A,
    first: u64,
    second: u64,
)
    requires
        functional(arith),
        is_latest_value(source, col, target, arith, first),
        is_latest_value(source, col, target, arith, second),
    ensures
        first == second,
{
    if !source.no_row_present() {
        let row = choose|row: int|
            #[trigger] source.is_back_row(row) && source.unit.converts(
                target,
                arith,
                source.columns[col][row],
                first,
            );
        let other = choose|row: int|
            #[trigger] source.is_back_row(row) && source.unit.converts(
                target,
                arith,
                source.columns[col][row],
                second,
            );
        lemma_back_row_once(source, row, other);
        lemma_converts_once(source.unit, target, arith, source.columns[col][row], first, second);
    }
}

/// The last row that holds a value is one row.
proof fn lemma_back_row_once(source: GridView, row: int, other: int)
    requires
        source.is_back_row(row),
        source.is_back_row(other),
    ensures
        row == other,
{
}

/// A report of a well-formed manager leaves it well formed: the values and
/// the comparison have one shape.
pub proof fn lemma_reports_wf<A: Fn(Operation, u64, u64) -> u64>(
    manager: ManagerView,
    selection: Seq<usize>,
    target: Unit,
    arith: &A,
    after: ManagerView,
)
    requires
        manager.wf(),
        manager.can_report(selection, target),
        manager.reports(selection, target, arith, after),
    ensures
        after.wf(),
{
}

/// With arithmetic that returns one result only, a manager has one state
/// after a report.
pub proof fn lemma_reports_once<A: Fn(Operation, u64, u64) -> u64>(
    manager: ManagerView,
    selection: Seq<usize>,
    target: Unit,
    arith: &A,
    first: ManagerView,
    second: ManagerView,
)
    requires
        functional(arith),
        manager.reports(selection, target, arith, first),
        manager.reports(selection, target, arith, second),
    ensures
        first == second,
{
    let percentage = Unit::PureUnit(PureUnit::Percentage);
    let delta = |base: u64, other: u64, value: u64| is_percent_delta(arith, base, other, value);
    lemma_percent_delta_once(arith);
    if selection.len() == 1 {
        let source = manager.sources[selection[0] as int];
        lemma_converts_to_once(source, target, arith, first.output, second.output);
        lemma_compares_neighbors_once(
            source,
            delta,
            percentage,
            first.comparison,
            second.comparison,
        );
    } else if selection.len() > 1 {
        lemma_same_cells(first.output, second.output);
        lemma_compares_index_once(
            first.output,
            delta,
            percentage,
            0,
            first.comparison,
            second.comparison,
        );
    }
}

impl View for Manager {
    type V = ManagerView;

    closed spec fn view(&self) -> ManagerView {
        ManagerView {
            sources: self.base_value_grids@.map_values(|grid: Grid| grid@),
            output: self.report.output_grid@,
            comparison: self.report.comparison_grid@,
        }
    }
}

impl Report {
    #[verifier::type_invariant]
    spec fn one_shape(&self) -> bool {
        &&& self.comparison_grid@.column_length == self.output_grid@.column_length
        &&& self.comparison_grid@.columns.len() == self.output_grid@.columns.len()
        &&& 2 * self.output_grid@.columns.len() <= usize::MAX
    }
}

/// The text of one cell.
fn cell_text<T: Fn(u64) -> String>(bits: u64, unit: &str, two_decimals: &T) -> (text: String)
    requires
        !is_nan(bits) ==> two_decimals.requires((bits,)),
    ensures
        is_cell_text(two_decimals, bits, unit@, text@),
{
    let mut text: String = if is_missing(bits) {
        String::from_str("NaN")
    } else {
        two_decimals(bits)
    };
    text.append(" ");
    text.append(unit);
    text
}

/// The texts of the cells of one column.
fn row_text<T: Fn(u64) -> String>(
    cells: &[u64],
    unit: &str,
    two_decimals: &T,
) -> (texts: Vec<String>)
    requires
        forall|bits: u64| !is_nan(bits) ==> two_decimals.requires((bits,)),
    ensures
        is_row_text(two_decimals, cells@, unit@, texts.deep_view()),
{
    let mut texts: Vec<String> = Vec::new();
    let mut j: usize = 0;
    while j < cells.len()
        invariant
            forall|bits: u64| !is_nan(bits) ==> two_decimals.requires((bits,)),
            j <= cells.len(),
            texts.len() == j,
            forall|k: int|
                0 <= k < j ==> is_cell_text(two_decimals, cells@[k], unit@, #[trigger] texts@[k]@),
        decreases cells.len() - j,
    {
        texts.push(cell_text(cells[j], unit, two_decimals));
        j += 1;
    }
    texts
}

impl Manager {
    /// A manager without source grids, whose report is empty.
    pub fn new() -> (manager: Self)
        ensures
            manager@ == (ManagerView {
                sources: Seq::empty(),
                output: GridView::blank(Unit::PureUnit(PureUnit::NoUnit), 0, 0),
                comparison: GridView::blank(Unit::PureUnit(PureUnit::NoUnit), 0, 0),
            }),
            manager@.wf(),
    {
        let manager = Self {
            base_value_grids: Vec::new(),
            report: Report {
                output_grid: Grid::new(Unit::PureUnit(PureUnit::NoUnit), 0, 0),
                comparison_grid: Grid::new(Unit::PureUnit(PureUnit::NoUnit), 0, 0),
            },
        };
        assert(manager@.sources =~= Seq::empty());
        manager
    }

    /// Appends a source grid of `metric_count` columns of `iteration_count`
    /// rows, in the unit that `unit_str` names, in which every cell is
    /// missing.
    pub fn emplace(&mut self, metric_count: usize, iteration_count: usize, unit_str: String)
        requires
            metric_count * iteration_count <= usize::MAX,
        ensures
            final(self)@ == (ManagerView {
                sources: old(self)@.sources.push(
                    GridView::blank(
                        Unit::parse(unit_str@),
                        iteration_count as nat,
                        metric_count as nat,
                    ),
                ),
                ..old(self)@
            }),
            final(self)@.wf(),
    {
        proof {
            use_type_invariant(&self.report);
        }
        let unit = Unit::from_str(unit_str.as_str());
        self.base_value_grids.push(Grid::new(unit, iteration_count, metric_count));
        assert(self@.sources =~= old(self)@.sources.push(
            GridView::blank(Unit::parse(unit_str@), iteration_count as nat, metric_count as nat),
        ));
    }

    /// The number of source grids.
    pub fn len(&self) -> (count: usize)
        ensures
            count == self@.sources.len(),
    {
        self.base_value_grids.len()
    }

    /// Tells whether the source grid `benchmark_index` exists and has a cell
    /// in the column `metric_index` at the row `iteration_index`: whether
    /// `set` may write there.
    pub fn has_cell(
        &self,
        benchmark_index: usize,
        metric_index: usize,
        iteration_index: usize,
    ) -> (present: bool)
        ensures
            present == (benchmark_index < self@.sources.len()
                && self@.sources[benchmark_index as int].in_range(
                metric_index as int,
                iteration_index as int,
            )),
    {
        if benchmark_index >= self.base_value_grids.len() {
            return false;
        }
        let grid = &self.base_value_grids[benchmark_index];
        metric_index < grid.column_count() && iteration_index < grid.column_length()
    }

    /// Tells whether a report can be made of `profile`: whether
    /// `run_profile` may be called with it.
    pub fn accepts(&self, profile: &Profile) -> (accepted: bool)
        ensures
            accepted == self@.can_report(profile.selected_indicies@, Unit::parse(profile.unit@)),
    {
        let ghost selection = profile.selected_indicies@;
        let selected: usize = profile.selected_indicies.len();
        if selected == 0 {
            return true;
        }
        let unit = Unit::from_str(profile.unit.as_str());
        if selected == 1 {
            let index: usize = profile.selected_indicies[0];
            if index >= self.base_value_grids.len() {
                return false;
            }
            let grid = &self.base_value_grids[index];
            return grid.unit().same_unit_pattern(&unit) && grid.column_count() <= usize::MAX / 2;
        }
        if self.base_value_grids.len() == 0 {
            return false;
        }
        let first = &self.base_value_grids[0];
        let col_count: usize = first.column_count();
        if col_count > usize::MAX / 2 || col_count.checked_mul(selected).is_none() {
            return false;
        }
        let mut k: usize = 0;
        while k < selected
            invariant
                selection == profile.selected_indicies@,
                selected == selection.len(),
                selected > 1,
                k <= selected,
                self@.sources.len() > 0,
                col_count == self@.sources[0].columns.len(),
                forall|j: int|
                    0 <= j < k ==> {
                        &&& (#[trigger] selection[j]) < self@.sources.len()
                        &&& !self@.sources[selection[j] as int].no_row_present()
                            ==> self@.sources[0].columns.len()
                            <= self@.sources[selection[j] as int].columns.len()
                    },
            decreases selected - k,
        {
            let index: usize = profile.selected_indicies[k];
            if index >= self.base_value_grids.len() {
                return false;
            }
            let grid = &self.base_value_grids[index];
            let recent = grid.back_col_index();
            if recent.is_some() && grid.column_count() < col_count {
                return false;
            }
            k += 1;
        }
        true
    }

    /// Makes the report of `profile`: the values and their comparison.
    fn update_unit_comparison_grid<A: Fn(Operation, u64, u64) -> u64>(
        &mut self,
        profile: &Profile,
        arith: &A,
    )
        requires
            old(self)@.can_report(profile.selected_indicies@, Unit::parse(profile.unit@)),
            total(arith),
        ensures
            old(self)@.reports(
                profile.selected_indicies@,
                Unit::parse(profile.unit@),
                arith,
                final(self)@,
            ),
    {
        let ghost before = self@;
        let ghost selection = profile.selected_indicies@;
        let compare_func = |base: u64, other: u64| -> (value: u64)
            ensures
                is_percent_delta(arith, base, other, value),
            { percent_delta(arith, base, other) };
        if profile.selected_indicies.len() == 1 {
            let index: usize = profile.selected_indicies[0];
            let base_grid = &self.base_value_grids[index];
            let unit = Unit::from_str(profile.unit.as_str());
            let output_grid = base_grid.clone_convert_unit(&unit, arith).unwrap();
            let comparison_grid = base_grid.clone_compare_neighbors(
                compare_func,
                Unit::PureUnit(PureUnit::Percentage),
            );
            self.report = Report { output_grid, comparison_grid };
        } else if profile.selected_indicies.len() > 1 {
            let col_count: usize = self.base_value_grids[0].column_count();
            let unit = Unit::from_str(profile.unit.as_str());
            let mut output_grid = Grid::new(unit, profile.selected_indicies.len(), col_count);
            let mut to_index: usize = 0;
            while to_index < profile.selected_indicies.len()
                invariant
                    total(arith),
                    before == self@,
                    selection == profile.selected_indicies@,
                    selection.len() > 1,
                    before.can_report(selection, unit),
                    to_index <= selection.len(),
                    col_count == before.sources[0].columns.len(),
                    output_grid@.unit == unit,
                    output_grid@.column_length == selection.len(),
                    output_grid@.columns.len() == col_count,
                    output_grid@.wf(),
                    forall|c: int, k: int|
                        output_grid@.in_range(c, k) && k >= to_index
                            ==> #[trigger] output_grid@.columns[c][k] == NAN,
                    forall|c: int, k: int|
                        output_grid@.in_range(c, k) && k < to_index ==> is_latest_value(
                            before.sources[selection[k] as int],
                            c,
                            unit,
                            arith,
                            #[trigger] output_grid@.columns[c][k],
                        ),
                decreases selection.len() - to_index,
            {
                let sel_index: usize = profile.selected_indicies[to_index];
                let sel_grid = &self.base_value_grids[sel_index];
                if let Some(recent_index) = sel_grid.back_col_index() {
                    let mut col_index: usize = 0;
                    while col_index < col_count
                        invariant
                            total(arith),
                            selection.len() > 1,
                            to_index < selection.len(),
                            sel_index == selection[to_index as int],
                            before.sources[sel_index as int] == sel_grid@,
                            sel_grid@.is_back_row(recent_index as int),
                            !sel_grid@.no_row_present(),
                            col_count <= sel_grid@.columns.len(),
                            col_index <= col_count,
                            output_grid@.unit == unit,
                            output_grid@.column_length == selection.len(),
                            output_grid@.columns.len() == col_count,
                            output_grid@.wf(),
                            forall|c: int, k: int|
                                output_grid@.in_range(c, k) && (k > to_index || (k == to_index && c
                                    >= col_index)) ==> #[trigger] output_grid@.columns[c][k] == NAN,
                            forall|c: int, k: int|
                                output_grid@.in_range(c, k) && (k < to_index || (k == to_index && c
                                    < col_index)) ==> is_latest_value(
                                    before.sources[selection[k] as int],
                                    c,
                                    unit,
                                    arith,
                                    #[trigger] output_grid@.columns[c][k],
                                ),
                        decreases col_count - col_index,
                    {
                        let value: u64 = sel_grid.get(col_index, recent_index);
                        output_grid.set(col_index, to_index, value, sel_grid.unit(), arith);
                        col_index += 1;
                    }
                }
                to_index += 1;
            }
            let compare_index: usize = 0;
            let comparison_grid = output_grid.clone_compare_index(
                compare_func,
                Unit::PureUnit(PureUnit::Percentage),
                compare_index,
            );
            self.report = Report { output_grid, comparison_grid };
        }
    }

    /// The report as text: two rows for each column of the values, the
    /// first with the values and the second with their comparison.
    fn get_matrix_as_str<T: Fn(u64) -> String>(
        &self,
        two_decimals: &T,
    ) -> (matrix_str: Vec<Vec<String>>)
        requires
            forall|bits: u64| !is_nan(bits) ==> two_decimals.requires((bits,)),
        ensures
            self@.renders(two_decimals, matrix_str.deep_view()),
    {
        proof {
            use_type_invariant(&self.report);
        }
        let col_count: usize = self.report.output_grid.column_count();
        let out_unit = self.report.output_grid.unit().as_str();
        let comp_unit = self.report.comparison_grid.unit().as_str();
        let mut matrix_str: Vec<Vec<String>> = Vec::new();
        let mut i: usize = 0;
        while i < col_count
            invariant
                forall|bits: u64| !is_nan(bits) ==> two_decimals.requires((bits,)),
                i <= col_count,
                col_count == self@.output.columns.len(),
                col_count == self@.comparison.columns.len(),
                out_unit@ == self@.output.unit.key(),
                comp_unit@ == self@.comparison.unit.key(),
                matrix_str.len() == 2 * i,
                forall|j: int|
                    0 <= j < 2 * i ==> is_row_text(
                        two_decimals,
                        self@.shown_cells(j),
                        self@.shown_key(j),
                        #[trigger] matrix_str@[j].deep_view(),
                    ),
            decreases col_count - i,
        {
            let out_column = self.report.output_grid.column(i);
            matrix_str.push(row_text(out_column, out_unit, two_decimals));
            let comp_column = self.report.comparison_grid.column(i);
            matrix_str.push(row_text(comp_column, comp_unit, two_decimals));
            i += 1;
        }
        matrix_str
    }

    /// Makes the report of `profile` and returns it as text: two rows for
    /// each column of the values, the first with the values and the second
    /// with their comparison. `two_decimals` writes a number; the manager
    /// writes `NaN` for a missing cell, and a space and the unit after each.
    pub fn run_profile<A: Fn(Operation, u64, u64) -> u64, T: Fn(u64) -> String>(
        &mut self,
        profile: &Profile,
        arith: &A,
        two_decimals: &T,
    ) -> (matrix_str: Vec<Vec<String>>)
        requires
            old(self)@.can_report(profile.selected_indicies@, Unit::parse(profile.unit@)),
            total(arith),
            forall|bits: u64| !is_nan(bits) ==> two_decimals.requires((bits,)),
        ensures
            old(self)@.reports(
                profile.selected_indicies@,
                Unit::parse(profile.unit@),
                arith,
                final(self)@,
            ),
            final(self)@.renders(two_decimals, matrix_str.deep_view()),
            final(self)@.wf(),
    {
        self.update_unit_comparison_grid(profile, arith);
        proof {
            use_type_invariant(&self.report);
        }
        self.get_matrix_as_str(two_decimals)
    }

    /// Writes `value`, expressed in the unit that `unit_str` names, to one
    /// cell of the source grid `benchmark_index`.
    pub fn set<A: Fn(Operation, u64, u64) -> u64>(
        &mut self,
        benchmark_index: usize,
        metric_index: usize,
        iteration_index: usize,
        value: u64,
        unit_str: String,
        arith: &A,
    )
        requires
            benchmark_index < old(self)@.sources.len(),
            old(self)@.sources[benchmark_index as int].in_range(
                metric_index as int,
                iteration_index as int,
            ),
            total(arith),
        ensures
            final(self)@ == (ManagerView {
                sources: old(self)@.sources.update(
                    benchmark_index as int,
                    final(self)@.sources[benchmark_index as int],
                ),
                ..old(self)@
            }),
            old(self)@.sources[benchmark_index as int].writes_cell(
                metric_index as int,
                iteration_index as int,
                value,
                Unit::parse(unit_str@),
                arith,
                final(self)@.sources[benchmark_index as int],
            ),
            final(self)@.wf(),
    {
        proof {
            use_type_invariant(&self.report);
        }
        let unit = Unit::from_str(unit_str.as_str());
        self.base_value_grids[benchmark_index].set(
            metric_index,
            iteration_index,
            value,
            unit,
            arith,
        );
        assert(self@.sources =~= old(self)@.sources.update(
            benchmark_index as int,
            self@.sources[benchmark_index as int],
        ));
    }

    /// Appends `grid` to the source grids.
    pub fn push(&mut self, grid: Grid)
        ensures
            final(self)@ == (ManagerView { sources: old(self)@.sources.push(grid@), ..old(self)@ }),
            final(self)@.wf(),
    {
        proof {
            use_type_invariant(&self.report);
        }
        self.base_value_grids.push(grid);
        assert(self@.sources =~= old(self)@.sources.push(grid@));
    }

    /// Puts `grid` in the place of the source grid `index`.
    pub fn set_grid(&mut self, index: usize, grid: Grid)
        requires
            index < old(self)@.sources.len(),
        ensures
            final(self)@ == (ManagerView {
                sources: old(self)@.sources.update(index as int, grid@),
                ..old(self)@
            }),
            final(self)@.wf(),
    {
        proof {
            use_type_invariant(&self.report);
        }
        self.base_value_grids[index] = grid;
        assert(self@.sources =~= old(self)@.sources.update(index as int, grid@));
    }
}

} // verus!

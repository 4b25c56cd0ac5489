//! The reader for the tracking sheet of tables, figures and listings.
//!
//! Two independent passes read the same sheet: one gathers the outputs, the
//! other who develops and who checks each of them.

use vstd::prelude::*;
use crate::item::{
    first_of_each_name, keep_first_of_each_name, unique_names, assignments_view, items_view, output_errors_view, read_view, Assignment, AssignmentView,
    ConfigItem, ConfigItemView, OutputError, OutputErrorView, ReadError, ReadErrorView,
};
use crate::text::{concat, longer_than, lower_of, to_lowercase, trim, trim_of};
use crate::workbook::{cell, cell_at, row_view, sheet_named, Cell, CellView, SheetView, Workbook};

verus! {

/// The tracking sheet.
pub const TOP: &'static str = "top";

/// The column of the output name.
pub const OUTPUT_NAME_COL_INDEX: usize = 4;

/// The column of the validation level.
pub const VALIDATION_LEVEL_COL_INDEX: usize = 0;

/// The header rows of the tracking sheet.
pub const TOP_ROWS_START_INDEX: usize = 1;

/// The run of empty output names that the scan tolerates.
pub const MAX_EMPTY_ROW_COUNT: usize = 10;

/// The column of the developer.
pub const SOURCER_COLUMN_INDEX: usize = 9;

/// The column of the person who checks the output.
pub const QCER_COLUMN_INDEX: usize = 10;

/// The longest output name allowed, in characters.
pub const MAX_OUTPUT_NAME_LEN: usize = 30;

/// The validation level that asks for an independent QC program.
pub const QC_LEVEL: &'static str = "3";

/// The message recorded for an output name that is too long.
pub const OUTPUT_NAME_EXCEED: &'static str = "Length of output name exceed 30";

/// What the output pass gathers: the outputs and the naming violations.
pub struct TopScanView {
    pub items: Seq<ConfigItemView>,
    pub errors: Seq<OutputErrorView>,
}

/// The violations that output name `name` commits.
pub open spec fn name_errors(name: Seq<char>) -> Seq<OutputErrorView> {
    if name.len() > MAX_OUTPUT_NAME_LEN {
        seq![OutputErrorView { item: name, message: OUTPUT_NAME_EXCEED@ }]
    } else {
        Seq::empty()
    }
}

/// The QC flag of a row: an explicit validation level sets it, an empty or
/// missing one keeps `qc` of the rows above.
pub open spec fn row_qc(level: Option<CellView>, qc: bool) -> bool {
    match level {
        Some(CellView::Text(v)) => trim_of(v) == QC_LEVEL@,
        _ => qc,
    }
}

pub open spec fn prepend_top(
    items: Seq<ConfigItemView>,
    errors: Seq<OutputErrorView>,
    r: Result<TopScanView, ReadErrorView>,
) -> Result<TopScanView, ReadErrorView> {
    match r {
        Ok(s) => Ok(TopScanView { items: items + s.items, errors: errors + s.errors }),
        Err(e) => Err(e),
    }
}

/// The output pass from row `i` on, after `empty` consecutive empty output
/// names, with `qc` the QC flag in force. It stops at a row without an output
/// name column, or at the empty output name that makes the run of empty ones
/// longer than tolerated.
pub open spec fn top_scan(
    sheet: Seq<char>,
    rows: Seq<Seq<CellView>>,
    i: int,
    empty: int,
    qc: bool,
) -> Result<TopScanView, ReadErrorView>
    decreases rows.len() - i,
{
    if i < 0 || i >= rows.len() {
        Ok(TopScanView { items: Seq::empty(), errors: Seq::empty() })
    } else {
        match cell_at(rows[i], OUTPUT_NAME_COL_INDEX as int) {
            None => Ok(TopScanView { items: Seq::empty(), errors: Seq::empty() }),
            Some(CellView::Empty) => if empty + 1 > MAX_EMPTY_ROW_COUNT {
                Ok(TopScanView { items: Seq::empty(), errors: Seq::empty() })
            } else {
                top_scan(sheet, rows, i + 1, empty + 1, qc)
            },
            Some(CellView::Other) => Err(
                ReadErrorView::CellDecode { sheet, row: i, column: OUTPUT_NAME_COL_INDEX as int },
            ),
            Some(CellView::Text(name)) => {
                let level = cell_at(rows[i], VALIDATION_LEVEL_COL_INDEX as int);
                if level == Some(CellView::Other) {
                    Err(
                        ReadErrorView::CellDecode {
                            sheet,
                            row: i,
                            column: VALIDATION_LEVEL_COL_INDEX as int,
                        },
                    )
                } else {
                    let q = row_qc(level, qc);
                    prepend_top(
                        seq![ConfigItemView { name: lower_of(name), supp: false, qc_required: q }],
                        name_errors(name),
                        top_scan(sheet, rows, i + 1, 0, q),
                    )
                }
            },
        }
    }
}

/// What reading the tracking sheet gives: the outputs, each name once, where
/// it first occurs; unless some name breaks the naming rules and `force` is
/// not set.
pub open spec fn top_read(wb: Seq<SheetView>, force: bool) -> Result<
    Seq<ConfigItemView>,
    ReadErrorView,
> {
    match sheet_named(wb, TOP@) {
        None => Err(ReadErrorView::MissingSheet(TOP@)),
        Some(sheet) => top_outcome(
            top_scan(sheet.name, sheet.rows, TOP_ROWS_START_INDEX as int, 0, true),
            force,
        ),
    }
}

/// What the read gives after the output pass: the outputs, each name once,
/// unless some name breaks the naming rules and `force` is not set.
pub open spec fn top_outcome(scan: Result<TopScanView, ReadErrorView>, force: bool) -> Result<
    Seq<ConfigItemView>,
    ReadErrorView,
> {
    match scan {
        Err(e) => Err(e),
        Ok(s) => if s.errors.len() > 0 && !force {
            Err(ReadErrorView::Naming(s.errors))
        } else {
            Ok(first_of_each_name(s.items))
        },
    }
}

proof fn lemma_prepend_top_empty(r: Result<TopScanView, ReadErrorView>)
    ensures
        prepend_top(Seq::empty(), Seq::empty(), r) == r,
{
    if let Ok(s) = r {
        assert(Seq::<ConfigItemView>::empty() + s.items =~= s.items);
        assert(Seq::<OutputErrorView>::empty() + s.errors =~= s.errors);
    }
}

proof fn lemma_prepend_top_twice(
    a: Seq<ConfigItemView>,
    d: Seq<OutputErrorView>,
    b: Seq<ConfigItemView>,
    e: Seq<OutputErrorView>,
    r: Result<TopScanView, ReadErrorView>,
)
    ensures
        prepend_top(a, d, prepend_top(b, e, r)) == prepend_top(a + b, d + e, r),
{
    if let Ok(s) = r {
        assert(a + (b + s.items) =~= (a + b) + s.items);
        assert(d + (e + s.errors) =~= (d + e) + s.errors);
    }
}

/// Reads the outputs of the tracking sheet; with `force`, naming violations do
/// not stop the read.
pub fn top_items(wb: &Workbook, force: bool) -> (r: Result<Vec<ConfigItem>, ReadError>)
    ensures
        read_view(r) == top_read(wb@, force),
        unique_names(r),
{
    let top = TOP.to_owned();
    let sheet = match wb.sheet(&top) {
        None => {
            return Err(ReadError::MissingSheet(top));
        },
        Some(s) => s,
    };
    let ghost name = sheet.name@;
    let ghost rows = sheet@.rows;
    let mut items: Vec<ConfigItem> = Vec::new();
    let mut errors: Vec<OutputError> = Vec::new();
    let mut empty: usize = 0;
    let mut qc = true;
    let mut i: usize = TOP_ROWS_START_INDEX;
    let ghost mut ended = false;
    proof {
        lemma_prepend_top_empty(top_scan(name, rows, i as int, 0, true));
    }
    while i < sheet.rows.len()
        invariant
            rows == sheet@.rows,
            name == sheet.name@,
            sheet_named(wb@, TOP@) == Some(sheet@),
            i >= TOP_ROWS_START_INDEX,
            empty <= MAX_EMPTY_ROW_COUNT,
            ended ==> top_scan(name, rows, i as int, empty as int, qc) == Ok::<
                TopScanView,
                ReadErrorView,
            >(TopScanView { items: Seq::empty(), errors: Seq::empty() }),
            top_scan(name, rows, TOP_ROWS_START_INDEX as int, 0, true) == prepend_top(
                items_view(items@),
                output_errors_view(errors@),
                top_scan(name, rows, i as int, empty as int, qc),
            ),
        ensures
            top_scan(name, rows, TOP_ROWS_START_INDEX as int, 0, true) == prepend_top(
                items_view(items@),
                output_errors_view(errors@),
                Ok(TopScanView { items: Seq::empty(), errors: Seq::empty() }),
            ),
        decreases sheet.rows.len() - i,
    {
        let row = &sheet.rows[i];
        assert(rows[i as int] == row_view(*row));
        let ghost before_items = items_view(items@);
        let ghost before_errors = output_errors_view(errors@);
        match cell(row, OUTPUT_NAME_COL_INDEX) {
            None => {
                proof {
                    ended = true;
                }
                break;
            },
            Some(Cell::Empty) => {
                if empty + 1 > MAX_EMPTY_ROW_COUNT {
                    proof {
                        ended = true;
                    }
                    break;
                }
                empty = empty + 1;
            },
            Some(Cell::Other) => {
                return Err(
                    ReadError::CellDecode {
                        sheet: sheet.name.clone(),
                        row: i,
                        column: OUTPUT_NAME_COL_INDEX,
                    },
                );
            },
            Some(Cell::Text(output)) => {
                let level = cell(row, VALIDATION_LEVEL_COL_INDEX);
                match level {
                    Some(Cell::Other) => {
                        return Err(
                            ReadError::CellDecode {
                                sheet: sheet.name.clone(),
                                row: i,
                                column: VALIDATION_LEVEL_COL_INDEX,
                            },
                        );
                    },
                    Some(Cell::Text(v)) => {
                        let level = trim(v.as_str());
                        qc = level == QC_LEVEL.to_owned();
                    },
                    _ => {},
                }
                let long = longer_than(output.as_str(), MAX_OUTPUT_NAME_LEN);
                let ghost new_errors = name_errors(output@);
                if long {
                    errors.push(
                        OutputError { item: output.clone(), message: OUTPUT_NAME_EXCEED.to_owned() },
                    );
                    assert(output_errors_view(errors@) =~= before_errors + new_errors);
                } else {
                    assert(output_errors_view(errors@) =~= before_errors + new_errors);
                }
                let ghost item = ConfigItemView { name: lower_of(output@), supp: false, qc_required: qc };
                proof {
                    lemma_prepend_top_twice(
                        before_items,
                        before_errors,
                        seq![item],
                        new_errors,
                        top_scan(name, rows, i + 1, 0, qc),
                    );
                }
                items.push(ConfigItem { name: to_lowercase(output.as_str()), supp: false, qc_required: qc });
                assert(items_view(items@) =~= before_items + seq![item]);
                empty = 0;
            },
        }
        i = i + 1;
    }
    assert(items_view(items@) + Seq::<ConfigItemView>::empty() =~= items_view(items@));
    assert(output_errors_view(errors@) + Seq::<OutputErrorView>::empty() =~= output_errors_view(
        errors@,
    ));
    if errors.len() > 0 && !force {
        return Err(ReadError::Naming(errors));
    }
    Ok(keep_first_of_each_name(items))
}

/// Whether the output name cells of the rows in `[from, to)` are all empty.
pub open spec fn empty_names(rows: Seq<Seq<CellView>>, from: int, to: int) -> bool {
    forall|j: int|
        from <= j < to ==> #[trigger] cell_at(rows[j], OUTPUT_NAME_COL_INDEX as int) == Some(
            CellView::Empty,
        )
}

proof fn lemma_top_skip_empty(
    sheet: Seq<char>,
    rows: Seq<Seq<CellView>>,
    i: int,
    n: int,
    empty: int,
    qc: bool,
)
    requires
        0 <= i,
        0 <= n,
        i + n <= rows.len(),
        empty + n <= MAX_EMPTY_ROW_COUNT,
        empty_names(rows, i, i + n),
    ensures
        top_scan(sheet, rows, i, empty, qc) == top_scan(sheet, rows, i + n, empty + n, qc),
    decreases n,
{
    if n > 0 {
        assert(cell_at(rows[i], OUTPUT_NAME_COL_INDEX as int) == Some(CellView::Empty));
        lemma_top_skip_empty(sheet, rows, i + 1, n - 1, empty + 1, qc);
    }
}

/// A run of eleven empty output names ends the output pass: nothing below
/// the eleventh contributes.
pub proof fn lemma_top_stops_after_empty_run(sheet: Seq<char>, rows: Seq<Seq<CellView>>, i: int, qc: bool)
    requires
        0 <= i,
        i + MAX_EMPTY_ROW_COUNT + 1 <= rows.len(),
        empty_names(rows, i, i + MAX_EMPTY_ROW_COUNT + 1),
    ensures
        top_scan(sheet, rows, i, 0, qc) == Ok::<TopScanView, ReadErrorView>(
            TopScanView { items: Seq::empty(), errors: Seq::empty() },
        ),
{
    lemma_top_skip_empty(sheet, rows, i, MAX_EMPTY_ROW_COUNT as int, 0, qc);
    assert(cell_at(rows[i + MAX_EMPTY_ROW_COUNT], OUTPUT_NAME_COL_INDEX as int) == Some(
        CellView::Empty,
    ));
}

/// A run of ten empty output names followed by an output is passed over: the
/// pass goes on at that output as if the run were not there.
pub proof fn lemma_top_continues_after_short_run(
    sheet: Seq<char>,
    rows: Seq<Seq<CellView>>,
    i: int,
    qc: bool,
)
    requires
        0 <= i,
        i + MAX_EMPTY_ROW_COUNT < rows.len(),
        empty_names(rows, i, i + MAX_EMPTY_ROW_COUNT),
        cell_at(rows[i + MAX_EMPTY_ROW_COUNT], OUTPUT_NAME_COL_INDEX as int) is Some,
        cell_at(rows[i + MAX_EMPTY_ROW_COUNT], OUTPUT_NAME_COL_INDEX as int)->0 is Text,
    ensures
        top_scan(sheet, rows, i, 0, qc) == top_scan(sheet, rows, i + MAX_EMPTY_ROW_COUNT, 0, qc),
{
    lemma_top_skip_empty(sheet, rows, i, MAX_EMPTY_ROW_COUNT as int, 0, qc);
}

proof fn lemma_top_scan_ignores_rows_after_run(
    sheet: Seq<char>,
    rows: Seq<Seq<CellView>>,
    i: int,
    empty: int,
    qc: bool,
    j: int,
)
    requires
        0 <= i <= j + MAX_EMPTY_ROW_COUNT + 1,
        0 <= j,
        j + MAX_EMPTY_ROW_COUNT + 1 <= rows.len(),
        empty_names(rows, j, j + MAX_EMPTY_ROW_COUNT + 1),
        0 <= empty <= MAX_EMPTY_ROW_COUNT,
        i >= j ==> empty >= i - j,
    ensures
        top_scan(sheet, rows, i, empty, qc) == top_scan(
            sheet,
            rows.take(j + MAX_EMPTY_ROW_COUNT + 1),
            i,
            empty,
            qc,
        ),
    decreases j + MAX_EMPTY_ROW_COUNT + 1 - i,
{
    let cut = rows.take(j + MAX_EMPTY_ROW_COUNT + 1);
    if i < j + MAX_EMPTY_ROW_COUNT + 1 {
        assert(cut[i] == rows[i]);
        if i >= j {
            assert(cell_at(rows[i], OUTPUT_NAME_COL_INDEX as int) == Some(CellView::Empty));
        }
        match cell_at(rows[i], OUTPUT_NAME_COL_INDEX as int) {
            Some(CellView::Empty) => {
                if empty + 1 <= MAX_EMPTY_ROW_COUNT {
                    lemma_top_scan_ignores_rows_after_run(sheet, rows, i + 1, empty + 1, qc, j);
                }
            },
            Some(CellView::Text(name)) => {
                let level = cell_at(rows[i], VALIDATION_LEVEL_COL_INDEX as int);
                lemma_top_scan_ignores_rows_after_run(sheet, rows, i + 1, 0, row_qc(level, qc), j);
            },
            _ => {},
        }
    }
}

/// A run of eleven empty output names ends the read: the rows below the run
/// contribute no output and no naming violation.
pub proof fn lemma_top_read_ignores_rows_after_run(wb: Seq<SheetView>, force: bool, j: int)
    requires
        sheet_named(wb, TOP@) is Some,
        TOP_ROWS_START_INDEX <= j,
        j + MAX_EMPTY_ROW_COUNT + 1 <= sheet_named(wb, TOP@)->0.rows.len(),
        empty_names(sheet_named(wb, TOP@)->0.rows, j, j + MAX_EMPTY_ROW_COUNT + 1),
    ensures
        top_read(wb, force) == top_outcome(
            top_scan(
                sheet_named(wb, TOP@)->0.name,
                sheet_named(wb, TOP@)->0.rows.take(j + MAX_EMPTY_ROW_COUNT + 1),
                TOP_ROWS_START_INDEX as int,
                0,
                true,
            ),
            force,
        ),
{
    let sheet = sheet_named(wb, TOP@)->0;
    lemma_top_scan_ignores_rows_after_run(
        sheet.name,
        sheet.rows,
        TOP_ROWS_START_INDEX as int,
        0,
        true,
        j,
    );
}

/// `force` changes the read in one way only: where some name breaks the
/// naming rules, the read fails with all the violations, and a forced read
/// gives the outputs instead, those names included.
pub proof fn lemma_force_lifts_only_naming(wb: Seq<SheetView>)
    ensures
        top_read(wb, false) is Ok ==> top_read(wb, true) == top_read(wb, false),
        (top_read(wb, false) is Err && !(top_read(wb, false)->Err_0 is Naming)) ==> top_read(
            wb,
            true,
        ) == top_read(wb, false),
        ({
            let sheet = sheet_named(wb, TOP@)->0;
            let scan = top_scan(sheet.name, sheet.rows, TOP_ROWS_START_INDEX as int, 0, true);
            sheet_named(wb, TOP@) is Some && scan is Ok && scan->Ok_0.errors.len() > 0 ==> {
                &&& top_read(wb, false) == Err::<Seq<ConfigItemView>, ReadErrorView>(
                    ReadErrorView::Naming(scan->Ok_0.errors),
                )
                &&& top_read(wb, true) == Ok::<Seq<ConfigItemView>, ReadErrorView>(
                    first_of_each_name(scan->Ok_0.items),
                )
            }
        }),
{
}

/// Each output name longer than the limit gives one violation, which names
/// it; a shorter one gives none.
pub proof fn lemma_long_name_violation(name: Seq<char>)
    ensures
        name.len() > MAX_OUTPUT_NAME_LEN ==> name_errors(name) == seq![
            OutputErrorView { item: name, message: OUTPUT_NAME_EXCEED@ },
        ],
        name.len() <= MAX_OUTPUT_NAME_LEN ==> name_errors(name).len() == 0,
{
}

/// The text of a cell, if it holds text.
pub open spec fn text_of(c: Option<CellView>) -> Option<Seq<char>> {
    match c {
        Some(CellView::Text(s)) => Some(s),
        _ => None,
    }
}

/// The task key of output `name` for a role.
pub open spec fn task_key(name: Seq<char>, role: Seq<char>) -> Seq<char> {
    name + role
}

/// The developer suffix of a task key.
pub const DEV_TASK: &'static str = "|dev";

/// The QC suffix of a task key.
pub const QC_TASK: &'static str = "|qc";

/// The assignments that one row of the tracking sheet makes: one for each role
/// whose column holds a name, when the row names an output.
pub open spec fn row_assignments(row: Seq<CellView>) -> Seq<AssignmentView> {
    match text_of(cell_at(row, OUTPUT_NAME_COL_INDEX as int)) {
        None => Seq::empty(),
        Some(task) => {
            let dev = match text_of(cell_at(row, SOURCER_COLUMN_INDEX as int)) {
                Some(d) => seq![AssignmentView { developer: d, task: task_key(task, DEV_TASK@) }],
                None => Seq::empty(),
            };
            let qc = match text_of(cell_at(row, QCER_COLUMN_INDEX as int)) {
                Some(d) => seq![AssignmentView { developer: d, task: task_key(task, QC_TASK@) }],
                None => Seq::empty(),
            };
            dev + qc
        },
    }
}

/// The assignments of the rows from `i` to the end of the sheet.
pub open spec fn assignment_scan(rows: Seq<Seq<CellView>>, i: int) -> Seq<AssignmentView>
    decreases rows.len() - i,
{
    if i < 0 || i >= rows.len() {
        Seq::empty()
    } else {
        row_assignments(rows[i]) + assignment_scan(rows, i + 1)
    }
}

/// What the assignment pass over the tracking sheet gives.
pub open spec fn top_assignments(wb: Seq<SheetView>) -> Result<Seq<AssignmentView>, ReadErrorView> {
    match sheet_named(wb, TOP@) {
        None => Err(ReadErrorView::MissingSheet(TOP@)),
        Some(sheet) => Ok(assignment_scan(sheet.rows, TOP_ROWS_START_INDEX as int)),
    }
}

/// The text of a cell, if it holds text.
fn cell_text(row: &Vec<Cell>, col: usize) -> (r: Option<&String>)
    ensures
        match r {
            Some(s) => text_of(cell_at(row_view(*row), col as int)) == Some(s@),
            None => text_of(cell_at(row_view(*row), col as int)) is None,
        },
{
    match cell(row, col) {
        Some(Cell::Text(s)) => Some(s),
        _ => None,
    }
}

/// Reads who develops and who checks each output of the tracking sheet.
pub fn assignments(wb: &Workbook) -> (r: Result<Vec<Assignment>, ReadError>)
    ensures
        match r {
            Ok(v) => top_assignments(wb@) == Ok::<Seq<AssignmentView>, ReadErrorView>(
                assignments_view(v@),
            ),
            Err(e) => top_assignments(wb@) == Err::<Seq<AssignmentView>, ReadErrorView>(e@),
        },
{
    let top = TOP.to_owned();
    let sheet = match wb.sheet(&top) {
        None => {
            return Err(ReadError::MissingSheet(top));
        },
        Some(s) => s,
    };
    let ghost rows = sheet@.rows;
    let mut result: Vec<Assignment> = Vec::new();
    let mut i: usize = TOP_ROWS_START_INDEX;
    assert(Seq::<AssignmentView>::empty() + assignment_scan(rows, i as int) =~= assignment_scan(
        rows,
        i as int,
    ));
    while i < sheet.rows.len()
        invariant
            rows == sheet@.rows,
            sheet_named(wb@, TOP@) == Some(sheet@),
            assignment_scan(rows, TOP_ROWS_START_INDEX as int) == assignments_view(result@)
                + assignment_scan(rows, i as int),
        decreases sheet.rows.len() - i,
    {
        let row = &sheet.rows[i];
        assert(rows[i as int] == row_view(*row));
        let ghost before = assignments_view(result@);
        let sourcer = cell_text(row, SOURCER_COLUMN_INDEX);
        let qcer = cell_text(row, QCER_COLUMN_INDEX);
        let task = cell_text(row, OUTPUT_NAME_COL_INDEX);
        if let Some(task) = task {
            if let Some(sourcer) = sourcer {
                result.push(
                    Assignment { developer: sourcer.clone(), task: concat(task.as_str(), DEV_TASK) },
                );
            }
            let ghost mid = assignments_view(result@);
            if let Some(qcer) = qcer {
                result.push(
                    Assignment { developer: qcer.clone(), task: concat(task.as_str(), QC_TASK) },
                );
            }
            assert(assignments_view(result@) =~= before + row_assignments(rows[i as int]));
        } else {
            assert(assignments_view(result@) =~= before + row_assignments(rows[i as int]));
        }
        assert(before + (row_assignments(rows[i as int]) + assignment_scan(rows, i + 1))
            =~= assignments_view(result@) + assignment_scan(rows, i + 1));
        i = i + 1;
    }
    assert(assignments_view(result@) + Seq::<AssignmentView>::empty() =~= assignments_view(
        result@,
    ));
    Ok(result)
}

} // verus!

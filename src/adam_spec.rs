//! The reader for ADaM specification workbooks.

use vstd::prelude::*;
use crate::item::{
    first_of_each_name, keep_first_of_each_name, unique_names, items_view, lemma_prepend_empty, lemma_prepend_prepend, prepend, read_view, ConfigItem,
    ConfigItemView, ReadError, ReadErrorView,
};
use crate::text::{lower_of, to_lowercase};
use crate::workbook::{cell, cell_at, row_view, sheet_named, Cell, CellView, SheetView, Workbook};

verus! {

/// The sheet that lists the datasets.
pub const CONTENT: &'static str = "CONTENT";

/// The column of the content sheet that holds the dataset code.
pub const DOMAIN_COL_INDEX: usize = 0;

/// The header rows of the content sheet.
pub const TARGET_ROWS_START_INDEX: usize = 6;

/// The item for dataset `code`.
pub open spec fn adam_item(code: Seq<char>) -> ConfigItemView {
    ConfigItemView { name: lower_of(code), supp: false, qc_required: true }
}

/// The items of the content rows from `i` on, up to the first row whose code
/// cell is missing or empty.
pub open spec fn adam_scan(sheet: Seq<char>, rows: Seq<Seq<CellView>>, i: int) -> Result<
    Seq<ConfigItemView>,
    ReadErrorView,
>
    decreases rows.len() - i,
{
    if i < 0 || i >= rows.len() {
        Ok(Seq::empty())
    } else {
        match cell_at(rows[i], DOMAIN_COL_INDEX as int) {
            Some(CellView::Text(code)) => prepend(seq![adam_item(code)], adam_scan(sheet, rows, i + 1)),
            Some(CellView::Other) => Err(
                ReadErrorView::CellDecode { sheet, row: i, column: DOMAIN_COL_INDEX as int },
            ),
            _ => Ok(Seq::empty()),
        }
    }
}

/// What reading an ADaM workbook gives: the datasets of the content sheet,
/// each name once, where it first occurs.
pub open spec fn adam_read(wb: Seq<SheetView>) -> Result<
    Seq<ConfigItemView>,
    ReadErrorView,
> {
    match sheet_named(wb, CONTENT@) {
        None => Err(ReadErrorView::MissingSheet(CONTENT@)),
        Some(sheet) => match adam_scan(sheet.name, sheet.rows, TARGET_ROWS_START_INDEX as int) {
            Ok(items) => Ok(first_of_each_name(items)),
            Err(e) => Err(e),
        },
    }
}

/// Reads the dataset list of an ADaM workbook.
pub fn adam_items(wb: &Workbook) -> (r: Result<Vec<ConfigItem>, ReadError>)
    ensures
        read_view(r) == adam_read(wb@),
        unique_names(r),
{
    let content = CONTENT.to_owned();
    let sheet = match wb.sheet(&content) {
        None => {
            return Err(ReadError::MissingSheet(content));
        },
        Some(s) => s,
    };
    let ghost name = sheet.name@;
    let ghost rows = sheet@.rows;
    let mut items: Vec<ConfigItem> = Vec::new();
    let mut i: usize = TARGET_ROWS_START_INDEX;
    proof {
        lemma_prepend_empty(adam_scan(name, rows, i as int));
    }
    while i < sheet.rows.len()
        invariant
            rows == sheet@.rows,
            name == sheet.name@,
            sheet_named(wb@, CONTENT@) == Some(sheet@),
            i >= TARGET_ROWS_START_INDEX,
            adam_scan(name, rows, TARGET_ROWS_START_INDEX as int) == prepend(
                items_view(items@),
                adam_scan(name, rows, i as int),
            ),
        decreases sheet.rows.len() - i,
    {
        assert(rows[i as int] == row_view(sheet.rows[i as int]));
        match cell(&sheet.rows[i], DOMAIN_COL_INDEX) {
            Some(Cell::Text(code)) => {
                let item = ConfigItem { name: to_lowercase(code.as_str()), supp: false, qc_required: true };
                let ghost before = items_view(items@);
                proof {
                    lemma_prepend_prepend(
                        items_view(items@),
                        seq![adam_item(code@)],
                        adam_scan(name, rows, i + 1),
                    );
                }
                items.push(item);
                assert(items_view(items@) =~= before + seq![adam_item(code@)]);
            },
            Some(Cell::Other) => {
                return Err(
                    ReadError::CellDecode { sheet: sheet.name.clone(), row: i, column: DOMAIN_COL_INDEX },
                );
            },
            _ => {
                assert(adam_scan(name, rows, i as int) == Ok::<Seq<ConfigItemView>, ReadErrorView>(Seq::empty()));
                assert(items_view(items@) + Seq::<ConfigItemView>::empty() =~= items_view(items@));
                return Ok(keep_first_of_each_name(items));
            },
        }
        i = i + 1;
    }
    assert(items_view(items@) + Seq::<ConfigItemView>::empty() =~= items_view(items@));
    Ok(keep_first_of_each_name(items))
}

/// The code that the code column of a content row holds, if it holds text.
pub open spec fn code_at(row: Seq<CellView>) -> Seq<char> {
    match cell_at(row, DOMAIN_COL_INDEX as int) {
        Some(CellView::Text(code)) => code,
        _ => Seq::empty(),
    }
}

/// Whether every content row in `[from, to)` holds text in its code column.
pub open spec fn codes_in(rows: Seq<Seq<CellView>>, from: int, to: int) -> bool {
    forall|j: int|
        from <= j < to ==> (#[trigger] cell_at(rows[j], DOMAIN_COL_INDEX as int)) is Some
            && cell_at(rows[j], DOMAIN_COL_INDEX as int)->0 is Text
}

/// Whether row `k` ends the table: its code cell is empty or missing.
pub open spec fn ends_table(rows: Seq<Seq<CellView>>, k: int) -> bool {
    0 <= k < rows.len() && match cell_at(rows[k], DOMAIN_COL_INDEX as int) {
        None => true,
        Some(CellView::Empty) => true,
        _ => false,
    }
}

proof fn lemma_adam_scan_until(sheet: Seq<char>, rows: Seq<Seq<CellView>>, i: int, k: int)
    requires
        0 <= i <= k,
        codes_in(rows, i, k),
        ends_table(rows, k),
    ensures
        adam_scan(sheet, rows, i) == Ok::<Seq<ConfigItemView>, ReadErrorView>(
            Seq::new((k - i) as nat, |j: int| adam_item(code_at(rows[i + j]))),
        ),
    decreases k - i,
{
    if i < k {
        assert(cell_at(rows[i], DOMAIN_COL_INDEX as int) is Some);
        lemma_adam_scan_until(sheet, rows, i + 1, k);
        assert(seq![adam_item(code_at(rows[i]))] + Seq::new(
            (k - (i + 1)) as nat,
            |j: int| adam_item(code_at(rows[i + 1 + j])),
        ) =~= Seq::new((k - i) as nat, |j: int| adam_item(code_at(rows[i + j]))));
    } else {
        assert(Seq::new((k - i) as nat, |j: int| adam_item(code_at(rows[i + j]))) =~= Seq::<
            ConfigItemView,
        >::empty());
    }
}

/// A content sheet whose code column holds text from the first data row down
/// to an empty cell gives exactly the datasets above that cell, in order,
/// each name once.
pub proof fn lemma_adam_reads_until_empty(wb: Seq<SheetView>, k: int)
    requires
        sheet_named(wb, CONTENT@) is Some,
        TARGET_ROWS_START_INDEX <= k,
        codes_in(sheet_named(wb, CONTENT@)->0.rows, TARGET_ROWS_START_INDEX as int, k),
        ends_table(sheet_named(wb, CONTENT@)->0.rows, k),
    ensures
        adam_read(wb) == Ok::<Seq<ConfigItemView>, ReadErrorView>(
            first_of_each_name(
                Seq::new(
                    (k - TARGET_ROWS_START_INDEX) as nat,
                    |j: int|
                        adam_item(
                            code_at(sheet_named(wb, CONTENT@)->0.rows[TARGET_ROWS_START_INDEX + j]),
                        ),
                ),
            ),
        ),
{
    let sheet = sheet_named(wb, CONTENT@)->0;
    lemma_adam_scan_until(sheet.name, sheet.rows, TARGET_ROWS_START_INDEX as int, k);
}

} // verus!

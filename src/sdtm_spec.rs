//! The reader for SDTM specification workbooks.
//!
//! The content sheet lists the domains. Two independent signals mark a domain
//! as having a supplemental dataset: a marker in the group column of the
//! domain's own detail sheet, and a row of the content sheet that declares the
//! supplemental dataset by its prefixed code. The scan gathers the items with
//! the first signal and, separately, the declared names; one final step merges
//! the second into the first.

use vstd::prelude::*;
use crate::adam_spec::{code_at, codes_in, ends_table, CONTENT, DOMAIN_COL_INDEX, TARGET_ROWS_START_INDEX};
use crate::item::{
    first_of_each, first_of_each_name, keep_first_of_each_name, lemma_first_of_each_name, names_of,
    unique_names, items_view, read_view, ConfigItem, ConfigItemView, ReadError, ReadErrorView,
};
use crate::text::{lower_of, strip_prefix, to_lowercase, to_uppercase, upper_of};
use crate::workbook::{cell, cell_at, row_view, sheet_named, Cell, CellView, SheetView, Workbook};

verus! {

/// The prefix of a supplemental dataset's code, and the marker that the
/// group column of a detail sheet holds for a supplemental variable.
pub const SUPP_PREFIX: &'static str = "SUPP";

/// The group column of a domain's detail sheet.
pub const VAR_BELONG_COL_INDEX: usize = 9;

/// What the scan of the content sheet gathers: the domains, each flagged from
/// its own detail sheet, and the names declared as supplemental.
pub struct ScanView {
    pub items: Seq<ConfigItemView>,
    pub declared: Seq<Seq<char>>,
}

/// The bottom-up scan of the first `i` rows of a detail sheet: the first
/// non-empty group cell decides whether it is the supplemental marker.
pub open spec fn detail_scan(sheet: Seq<char>, rows: Seq<Seq<CellView>>, i: int) -> Result<
    bool,
    ReadErrorView,
>
    decreases i,
{
    if i <= 0 || i > rows.len() {
        Ok(false)
    } else {
        match cell_at(rows[i - 1], VAR_BELONG_COL_INDEX as int) {
            Some(CellView::Text(s)) => Ok(s == SUPP_PREFIX@),
            Some(CellView::Other) => Err(
                ReadErrorView::CellDecode { sheet, row: i - 1, column: VAR_BELONG_COL_INDEX as int },
            ),
            _ => detail_scan(sheet, rows, i - 1),
        }
    }
}

/// Whether the detail sheet of domain `code` marks a supplemental dataset;
/// a domain without a detail sheet has none.
pub open spec fn detail_supp(wb: Seq<SheetView>, code: Seq<char>) -> Result<bool, ReadErrorView> {
    match sheet_named(wb, code) {
        None => Ok(false),
        Some(sheet) => detail_scan(sheet.name, sheet.rows, sheet.rows.len() as int),
    }
}

/// The item for domain `code`.
pub open spec fn sdtm_item(code: Seq<char>, supp: bool) -> ConfigItemView {
    ConfigItemView { name: lower_of(code), supp, qc_required: true }
}

/// Whether a content code declares a supplemental dataset.
pub open spec fn is_supp_code(code: Seq<char>) -> bool {
    SUPP_PREFIX@.is_prefix_of(code)
}

/// `items` and `declared` in front of what `r` gathered.
pub open spec fn prepend_scan(
    items: Seq<ConfigItemView>,
    declared: Seq<Seq<char>>,
    r: Result<ScanView, ReadErrorView>,
) -> Result<ScanView, ReadErrorView> {
    match r {
        Ok(s) => Ok(ScanView { items: items + s.items, declared: declared + s.declared }),
        Err(e) => Err(e),
    }
}

/// The scan of the content rows from `i` on, up to the first row whose code
/// cell is missing or empty.
pub open spec fn sdtm_scan(
    wb: Seq<SheetView>,
    sheet: Seq<char>,
    rows: Seq<Seq<CellView>>,
    i: int,
) -> Result<ScanView, ReadErrorView>
    decreases rows.len() - i,
{
    if i < 0 || i >= rows.len() {
        Ok(ScanView { items: Seq::empty(), declared: Seq::empty() })
    } else {
        match cell_at(rows[i], DOMAIN_COL_INDEX as int) {
            Some(CellView::Text(code)) => if is_supp_code(code) {
                prepend_scan(
                    Seq::empty(),
                    seq![code.skip(SUPP_PREFIX@.len() as int)],
                    sdtm_scan(wb, sheet, rows, i + 1),
                )
            } else {
                match detail_supp(wb, code) {
                    Err(e) => Err(e),
                    Ok(f) => prepend_scan(
                        seq![sdtm_item(code, f)],
                        Seq::empty(),
                        sdtm_scan(wb, sheet, rows, i + 1),
                    ),
                }
            },
            Some(CellView::Other) => Err(
                ReadErrorView::CellDecode { sheet, row: i, column: DOMAIN_COL_INDEX as int },
            ),
            _ => Ok(ScanView { items: Seq::empty(), declared: Seq::empty() }),
        }
    }
}

/// An item flagged from its detail sheet keeps its flag; any other is flagged
/// when its upper-cased name was declared as supplemental.
pub open spec fn reconcile_item(item: ConfigItemView, declared: Seq<Seq<char>>) -> ConfigItemView {
    ConfigItemView {
        name: item.name,
        supp: item.supp || declared.contains(upper_of(item.name)),
        qc_required: item.qc_required,
    }
}

pub open spec fn reconcile(items: Seq<ConfigItemView>, declared: Seq<Seq<char>>) -> Seq<
    ConfigItemView,
> {
    items.map_values(|item: ConfigItemView| reconcile_item(item, declared))
}

/// What reading an SDTM workbook gives: the domains of the content sheet,
/// each name once, where it first occurs, flagged by both signals.
pub open spec fn sdtm_read(wb: Seq<SheetView>) -> Result<Seq<ConfigItemView>, ReadErrorView> {
    match sheet_named(wb, CONTENT@) {
        None => Err(ReadErrorView::MissingSheet(CONTENT@)),
        Some(sheet) => match sdtm_scan(wb, sheet.name, sheet.rows, TARGET_ROWS_START_INDEX as int) {
            Err(e) => Err(e),
            Ok(s) => Ok(reconcile(first_of_each_name(s.items), s.declared)),
        },
    }
}

proof fn lemma_prepend_scan_empty(r: Result<ScanView, ReadErrorView>)
    ensures
        prepend_scan(Seq::empty(), Seq::empty(), r) == r,
{
    if let Ok(s) = r {
        assert(Seq::<ConfigItemView>::empty() + s.items =~= s.items);
        assert(Seq::<Seq<char>>::empty() + s.declared =~= s.declared);
    }
}

proof fn lemma_prepend_scan_twice(
    a: Seq<ConfigItemView>,
    d: Seq<Seq<char>>,
    b: Seq<ConfigItemView>,
    e: Seq<Seq<char>>,
    r: Result<ScanView, ReadErrorView>,
)
    ensures
        prepend_scan(a, d, prepend_scan(b, e, r)) == prepend_scan(a + b, d + e, r),
{
    if let Ok(s) = r {
        assert(a + (b + s.items) =~= (a + b) + s.items);
        assert(d + (e + s.declared) =~= (d + e) + s.declared);
    }
}

/// Whether a content code declares a supplemental dataset. Such a row gives
/// no item; the scan records its main domain's name for the final merge.
pub fn skip_supp(domain: &str) -> (r: bool)
    ensures
        r == is_supp_code(domain@),
{
    strip_prefix(domain, SUPP_PREFIX).is_some()
}

/// Whether the detail sheet of domain `code` marks a supplemental dataset.
pub fn domain_has_supp(wb: &Workbook, code: &String) -> (r: Result<bool, ReadError>)
    ensures
        match r {
            Ok(f) => detail_supp(wb@, code@) == Ok::<bool, ReadErrorView>(f),
            Err(e) => detail_supp(wb@, code@) == Err::<bool, ReadErrorView>(e@),
        },
{
    let sheet = match wb.sheet(code) {
        None => {
            return Ok(false);
        },
        Some(s) => s,
    };
    let ghost rows = sheet@.rows;
    let mut i: usize = sheet.rows.len();
    while i > 0
        invariant
            rows == sheet@.rows,
            i <= rows.len(),
            sheet_named(wb@, code@) == Some(sheet@),
            detail_scan(sheet.name@, rows, rows.len() as int) == detail_scan(
                sheet.name@,
                rows,
                i as int,
            ),
        decreases i,
    {
        assert(rows[i - 1] == row_view(sheet.rows[i - 1]));
        match cell(&sheet.rows[i - 1], VAR_BELONG_COL_INDEX) {
            Some(Cell::Text(s)) => {
                let marker = SUPP_PREFIX.to_owned();
                return Ok(*s == marker);
            },
            Some(Cell::Other) => {
                return Err(
                    ReadError::CellDecode {
                        sheet: sheet.name.clone(),
                        row: i - 1,
                        column: VAR_BELONG_COL_INDEX,
                    },
                );
            },
            _ => {},
        }
        i = i - 1;
    }
    Ok(false)
}

/// Flags each item whose upper-cased name is among `declared`.
pub fn reconcile_supp(items: Vec<ConfigItem>, declared: &Vec<String>) -> (r: Vec<ConfigItem>)
    ensures
        items_view(r@) == reconcile(items_view(items@), declared@.map_values(|d: String| d@)),
{
    let ghost names = declared@.map_values(|d: String| d@);
    let mut out: Vec<ConfigItem> = Vec::new();
    let mut i: usize = 0;
    while i < items.len()
        invariant
            i <= items@.len(),
            names == declared@.map_values(|d: String| d@),
            items_view(out@) =~= reconcile(items_view(items@), names).take(i as int),
        decreases items@.len() - i,
    {
        let item = &items[i];
        let mut supp = item.supp;
        if !supp {
            let upper = to_uppercase(item.name.as_str());
            let mut j: usize = 0;
            while j < declared.len()
                invariant
                    j <= declared@.len(),
                    names == declared@.map_values(|d: String| d@),
                    !supp ==> forall|k: int| 0 <= k < j ==> names[k] != upper@,
                    supp ==> names.contains(upper@),
                    upper@ == upper_of(item.name@),
                decreases declared@.len() - j,
            {
                if declared[j] == upper {
                    supp = true;
                    assert(names[j as int] == upper@);
                }
                j = j + 1;
            }
        }
        assert(supp == (item.supp || names.contains(upper_of(item.name@))));
        let ghost before = items_view(out@);
        out.push(ConfigItem { name: item.name.clone(), supp, qc_required: item.qc_required });
        assert(items_view(out@) =~= before + seq![reconcile_item(item@, names)]);
        assert(reconcile(items_view(items@), names).take(i + 1) =~= reconcile(
            items_view(items@),
            names,
        ).take(i as int) + seq![reconcile_item(item@, names)]);
        i = i + 1;
    }
    assert(reconcile(items_view(items@), names).take(items@.len() as int) =~= reconcile(
        items_view(items@),
        names,
    ));
    out
}

/// The first item of each name, flagged from the declared names.
fn unique_reconciled(items: Vec<ConfigItem>, declared: &Vec<String>) -> (r: Vec<ConfigItem>)
    ensures
        items_view(r@) == reconcile(
            first_of_each_name(items_view(items@)),
            declared@.map_values(|d: String| d@),
        ),
        names_of(items_view(r@)).no_duplicates(),
{
    let kept = keep_first_of_each_name(items);
    let ghost before = items_view(kept@);
    let r = reconcile_supp(kept, declared);
    assert(names_of(items_view(r@)) =~= names_of(before));
    r
}

/// Reads the domain list of an SDTM workbook.
pub fn sdtm_items(wb: &Workbook) -> (r: Result<Vec<ConfigItem>, ReadError>)
    ensures
        read_view(r) == sdtm_read(wb@),
        unique_names(r),
{
    let content = CONTENT.to_owned();
    let sheet = match wb.sheet(&content) {
        None => {
            return Err(ReadError::MissingSheet(content));
        },
        Some(s) => s,
    };
    let ghost name = sheet.name@;
    let ghost rows = sheet@.rows;
    let mut items: Vec<ConfigItem> = Vec::new();
    let mut declared: Vec<String> = Vec::new();
    let mut i: usize = TARGET_ROWS_START_INDEX;
    proof {
        lemma_prepend_scan_empty(sdtm_scan(wb@, name, rows, i as int));
    }
    while i < sheet.rows.len()
        invariant
            rows == sheet@.rows,
            name == sheet.name@,
            sheet_named(wb@, CONTENT@) == Some(sheet@),
            i >= TARGET_ROWS_START_INDEX,
            sdtm_scan(wb@, name, rows, TARGET_ROWS_START_INDEX as int) == prepend_scan(
                items_view(items@),
                declared@.map_values(|d: String| d@),
                sdtm_scan(wb@, name, rows, i as int),
            ),
        decreases sheet.rows.len() - i,
    {
        assert(rows[i as int] == row_view(sheet.rows[i as int]));
        let ghost before_items = items_view(items@);
        let ghost before_declared = declared@.map_values(|d: String| d@);
        match cell(&sheet.rows[i], DOMAIN_COL_INDEX) {
            Some(Cell::Text(code)) => {
                match strip_prefix(code.as_str(), SUPP_PREFIX) {
                    Some(main) => {
                        proof {
                            lemma_prepend_scan_twice(
                                before_items,
                                before_declared,
                                Seq::empty(),
                                seq![main@],
                                sdtm_scan(wb@, name, rows, i + 1),
                            );
                            assert(before_items + Seq::<ConfigItemView>::empty() =~= before_items);
                        }
                        declared.push(main);
                        assert(declared@.map_values(|d: String| d@) =~= before_declared + seq![main@]);
                    },
                    None => {
                        let supp = match domain_has_supp(wb, code) {
                            Ok(f) => f,
                            Err(e) => {
                                return Err(e);
                            },
                        };
                        proof {
                            lemma_prepend_scan_twice(
                                before_items,
                                before_declared,
                                seq![sdtm_item(code@, supp)],
                                Seq::empty(),
                                sdtm_scan(wb@, name, rows, i + 1),
                            );
                            assert(before_declared + Seq::<Seq<char>>::empty() =~= before_declared);
                        }
                        items.push(
                            ConfigItem { name: to_lowercase(code.as_str()), supp, qc_required: true },
                        );
                        assert(items_view(items@) =~= before_items + seq![sdtm_item(code@, supp)]);
                    },
                }
            },
            Some(Cell::Other) => {
                return Err(
                    ReadError::CellDecode { sheet: sheet.name.clone(), row: i, column: DOMAIN_COL_INDEX },
                );
            },
            _ => {
                assert(items_view(items@) + Seq::<ConfigItemView>::empty() =~= items_view(items@));
                assert(before_declared + Seq::<Seq<char>>::empty() =~= before_declared);
                return Ok(unique_reconciled(items, &declared));
            },
        }
        i = i + 1;
    }
    assert(items_view(items@) + Seq::<ConfigItemView>::empty() =~= items_view(items@));
    assert(declared@.map_values(|d: String| d@) + Seq::<Seq<char>>::empty() =~= declared@.map_values(
        |d: String| d@,
    ));
    Ok(unique_reconciled(items, &declared))
}

/// The rows of the content sheet.
pub open spec fn content_rows(wb: Seq<SheetView>) -> Seq<Seq<CellView>> {
    sheet_named(wb, CONTENT@)->0.rows
}

/// The names of the domains among the content rows in `[i, k)`: the codes
/// that declare no supplemental dataset, lower-cased, in order.
pub open spec fn domain_names(rows: Seq<Seq<CellView>>, i: int, k: int) -> Seq<Seq<char>>
    decreases k - i,
{
    if i < 0 || i >= k {
        Seq::empty()
    } else if is_supp_code(code_at(rows[i])) {
        domain_names(rows, i + 1, k)
    } else {
        seq![lower_of(code_at(rows[i]))] + domain_names(rows, i + 1, k)
    }
}

proof fn lemma_sdtm_scan_step(wb: Seq<SheetView>, sheet: Seq<char>, rows: Seq<Seq<CellView>>, i: int)
    requires
        0 <= i < rows.len(),
        cell_at(rows[i], DOMAIN_COL_INDEX as int) is Some,
        cell_at(rows[i], DOMAIN_COL_INDEX as int)->0 is Text,
        sdtm_scan(wb, sheet, rows, i) is Ok,
    ensures
        sdtm_scan(wb, sheet, rows, i + 1) is Ok,
        ({
            let s = sdtm_scan(wb, sheet, rows, i)->Ok_0;
            let t = sdtm_scan(wb, sheet, rows, i + 1)->Ok_0;
            let code = code_at(rows[i]);
            if is_supp_code(code) {
                s.items == t.items && s.declared == seq![code.skip(SUPP_PREFIX@.len() as int)]
                    + t.declared
            } else {
                detail_supp(wb, code) is Ok && s.items == seq![
                    sdtm_item(code, detail_supp(wb, code)->Ok_0),
                ] + t.items && s.declared == t.declared
            }
        }),
{
    let t = sdtm_scan(wb, sheet, rows, i + 1);
    if let Ok(t) = t {
        assert(Seq::<ConfigItemView>::empty() + t.items =~= t.items);
        assert(Seq::<Seq<char>>::empty() + t.declared =~= t.declared);
    }
}

proof fn lemma_sdtm_scan_names(
    wb: Seq<SheetView>,
    sheet: Seq<char>,
    rows: Seq<Seq<CellView>>,
    i: int,
    k: int,
)
    requires
        0 <= i <= k,
        codes_in(rows, i, k),
        ends_table(rows, k),
        sdtm_scan(wb, sheet, rows, i) is Ok,
    ensures
        names_of(sdtm_scan(wb, sheet, rows, i)->Ok_0.items) == domain_names(rows, i, k),
    decreases k - i,
{
    if i < k {
        assert(cell_at(rows[i], DOMAIN_COL_INDEX as int) is Some);
        lemma_sdtm_scan_step(wb, sheet, rows, i);
        lemma_sdtm_scan_names(wb, sheet, rows, i + 1, k);
        let s = sdtm_scan(wb, sheet, rows, i)->Ok_0;
        let t = sdtm_scan(wb, sheet, rows, i + 1)->Ok_0;
        if !is_supp_code(code_at(rows[i])) {
            assert(names_of(s.items) =~= seq![lower_of(code_at(rows[i]))] + names_of(t.items));
        }
    } else {
        assert(names_of(sdtm_scan(wb, sheet, rows, i)->Ok_0.items) =~= Seq::<Seq<char>>::empty());
    }
}

/// Whether `item` is the item that content row `j` gives.
pub open spec fn item_from_row(wb: Seq<SheetView>, rows: Seq<Seq<CellView>>, j: int, item: ConfigItemView) -> bool {
    &&& cell_at(rows[j], DOMAIN_COL_INDEX as int) == Some(CellView::Text(code_at(rows[j])))
    &&& !is_supp_code(code_at(rows[j]))
    &&& detail_supp(wb, code_at(rows[j])) is Ok
    &&& item == sdtm_item(code_at(rows[j]), detail_supp(wb, code_at(rows[j]))->Ok_0)
}

proof fn lemma_sdtm_scan_origin(wb: Seq<SheetView>, sheet: Seq<char>, rows: Seq<Seq<CellView>>, i: int)
    requires
        sdtm_scan(wb, sheet, rows, i) is Ok,
    ensures
        forall|x: ConfigItemView|
            sdtm_scan(wb, sheet, rows, i)->Ok_0.items.contains(x) ==> exists|j: int|
                i <= j < rows.len() && #[trigger] item_from_row(wb, rows, j, x),
    decreases rows.len() - i,
{
    if 0 <= i < rows.len() {
        if let Some(CellView::Text(code)) = cell_at(rows[i], DOMAIN_COL_INDEX as int) {
            lemma_sdtm_scan_step(wb, sheet, rows, i);
            lemma_sdtm_scan_origin(wb, sheet, rows, i + 1);
            let s = sdtm_scan(wb, sheet, rows, i)->Ok_0;
            let t = sdtm_scan(wb, sheet, rows, i + 1)->Ok_0;
            assert forall|x: ConfigItemView| s.items.contains(x) implies exists|j: int|
                i <= j < rows.len() && #[trigger] item_from_row(wb, rows, j, x) by {
                let m = choose|m: int| 0 <= m < s.items.len() && s.items[m] == x;
                if !is_supp_code(code) && m == 0 {
                    assert(item_from_row(wb, rows, i, x));
                } else {
                    if !is_supp_code(code) {
                        assert(t.items[m - 1] == x);
                    } else {
                        assert(t.items[m] == x);
                    }
                    assert(t.items.contains(x));
                }
            }
        }
    } else {
        assert(sdtm_scan(wb, sheet, rows, i)->Ok_0.items.len() == 0);
    }
}

proof fn lemma_sdtm_scan_facts(
    wb: Seq<SheetView>,
    sheet: Seq<char>,
    rows: Seq<Seq<CellView>>,
    i: int,
    k: int,
)
    requires
        0 <= i <= k <= rows.len(),
        codes_in(rows, i, k),
        sdtm_scan(wb, sheet, rows, i) is Ok,
    ensures
        forall|j: int|
            i <= j < k && !is_supp_code(#[trigger] code_at(rows[j])) ==> exists|m: int|
                0 <= m < sdtm_scan(wb, sheet, rows, i)->Ok_0.items.len()
                    && sdtm_scan(wb, sheet, rows, i)->Ok_0.items[m].name == lower_of(
                    code_at(rows[j]),
                ) && (detail_supp(wb, code_at(rows[j])) == Ok::<bool, ReadErrorView>(true)
                    ==> sdtm_scan(wb, sheet, rows, i)->Ok_0.items[m].supp),
        forall|j: int|
            i <= j < k && is_supp_code(#[trigger] code_at(rows[j])) ==> sdtm_scan(
                wb,
                sheet,
                rows,
                i,
            )->Ok_0.declared.contains(code_at(rows[j]).skip(SUPP_PREFIX@.len() as int)),
    decreases k - i,
{
    if i < k {
        assert(cell_at(rows[i], DOMAIN_COL_INDEX as int) is Some);
        lemma_sdtm_scan_step(wb, sheet, rows, i);
        lemma_sdtm_scan_facts(wb, sheet, rows, i + 1, k);
        let s = sdtm_scan(wb, sheet, rows, i)->Ok_0;
        let t = sdtm_scan(wb, sheet, rows, i + 1)->Ok_0;
        let code = code_at(rows[i]);
        assert forall|j: int| i <= j < k && !is_supp_code(#[trigger] code_at(rows[j])) implies exists|
            m: int,
        |
            0 <= m < s.items.len() && s.items[m].name == lower_of(code_at(rows[j])) && (detail_supp(
                wb,
                code_at(rows[j]),
            ) == Ok::<bool, ReadErrorView>(true) ==> s.items[m].supp) by {
            if j == i {
                assert(s.items[0] == sdtm_item(code, detail_supp(wb, code)->Ok_0));
            } else {
                let m = choose|m: int|
                    0 <= m < t.items.len() && t.items[m].name == lower_of(code_at(rows[j])) && (
                    detail_supp(wb, code_at(rows[j])) == Ok::<bool, ReadErrorView>(true)
                        ==> t.items[m].supp);
                if is_supp_code(code) {
                    assert(s.items[m] == t.items[m]);
                } else {
                    assert(s.items[m + 1] == t.items[m]);
                }
            }
        }
        assert forall|j: int| i <= j < k && is_supp_code(#[trigger] code_at(rows[j])) implies s.declared.contains(
            code_at(rows[j]).skip(SUPP_PREFIX@.len() as int),
        ) by {
            let d = code_at(rows[j]).skip(SUPP_PREFIX@.len() as int);
            if j == i {
                assert(s.declared[0] == d);
            } else {
                let m = choose|m: int| 0 <= m < t.declared.len() && t.declared[m] == d;
                if is_supp_code(code) {
                    assert(s.declared[m + 1] == d);
                } else {
                    assert(s.declared[m] == d);
                }
            }
        }
    }
}

/// A content sheet whose code column holds text from the first data row down
/// to an empty cell gives, when it can be read, exactly the domains above that
/// cell, in order, each name once; the rows that declare supplemental
/// datasets give none.
pub proof fn lemma_sdtm_reads_until_empty(wb: Seq<SheetView>, k: int)
    requires
        sheet_named(wb, CONTENT@) is Some,
        TARGET_ROWS_START_INDEX <= k,
        codes_in(content_rows(wb), TARGET_ROWS_START_INDEX as int, k),
        ends_table(content_rows(wb), k),
        sdtm_read(wb) is Ok,
    ensures
        names_of(sdtm_read(wb)->Ok_0) == first_of_each(
            domain_names(content_rows(wb), TARGET_ROWS_START_INDEX as int, k),
        ),
{
    let sheet = sheet_named(wb, CONTENT@)->0;
    lemma_sdtm_scan_names(wb, sheet.name, sheet.rows, TARGET_ROWS_START_INDEX as int, k);
    let s = sdtm_scan(wb, sheet.name, sheet.rows, TARGET_ROWS_START_INDEX as int)->Ok_0;
    lemma_first_of_each_name(s.items);
    let kept = first_of_each_name(s.items);
    assert(names_of(reconcile(kept, s.declared)) =~= names_of(kept));
}

/// The item of a successful read whose name is `name`, if the read's domains
/// include that name: it is the item of some domain row, flagged by both
/// signals.
proof fn lemma_read_item_named(wb: Seq<SheetView>, name: Seq<char>)
    requires
        sheet_named(wb, CONTENT@) is Some,
        sdtm_read(wb) is Ok,
        names_of(
            sdtm_scan(
                wb,
                sheet_named(wb, CONTENT@)->0.name,
                content_rows(wb),
                TARGET_ROWS_START_INDEX as int,
            )->Ok_0.items,
        ).contains(name),
    ensures
        exists|m: int, j: int|
            0 <= m < sdtm_read(wb)->Ok_0.len() && TARGET_ROWS_START_INDEX <= j < content_rows(
                wb,
            ).len() && sdtm_read(wb)->Ok_0[m].name == name && #[trigger] item_from_row(
                wb,
                content_rows(wb),
                j,
                first_of_each_name(
                    sdtm_scan(
                        wb,
                        sheet_named(wb, CONTENT@)->0.name,
                        content_rows(wb),
                        TARGET_ROWS_START_INDEX as int,
                    )->Ok_0.items,
                )[m],
            ) && sdtm_read(wb)->Ok_0[m] == reconcile_item(
                first_of_each_name(
                    sdtm_scan(
                        wb,
                        sheet_named(wb, CONTENT@)->0.name,
                        content_rows(wb),
                        TARGET_ROWS_START_INDEX as int,
                    )->Ok_0.items,
                )[m],
                sdtm_scan(
                    wb,
                    sheet_named(wb, CONTENT@)->0.name,
                    content_rows(wb),
                    TARGET_ROWS_START_INDEX as int,
                )->Ok_0.declared,
            ),
{
    let sheet = sheet_named(wb, CONTENT@)->0;
    let rows = sheet.rows;
    let s = sdtm_scan(wb, sheet.name, rows, TARGET_ROWS_START_INDEX as int)->Ok_0;
    let kept = first_of_each_name(s.items);
    lemma_first_of_each_name(s.items);
    lemma_sdtm_scan_origin(wb, sheet.name, rows, TARGET_ROWS_START_INDEX as int);
    assert(names_of(kept).contains(name));
    let m = choose|m: int| 0 <= m < names_of(kept).len() && names_of(kept)[m] == name;
    assert(kept.contains(kept[m]));
    assert(s.items.contains(kept[m]));
    let j = choose|j: int|
        TARGET_ROWS_START_INDEX <= j < rows.len() && #[trigger] item_from_row(wb, rows, j, kept[m]);
    assert(sdtm_read(wb) == Ok::<Seq<ConfigItemView>, ReadErrorView>(reconcile(kept, s.declared)));
    assert(sdtm_read(wb)->Ok_0[m] == reconcile_item(kept[m], s.declared));
    assert(item_from_row(wb, rows, j, kept[m]));
}

/// A domain that the content sheet also declares under the supplemental
/// prefix is reported with a supplemental dataset, whatever its detail sheet
/// holds.
pub proof fn lemma_declared_supp_reported(wb: Seq<SheetView>, a: int, b: int, k: int)
    requires
        sheet_named(wb, CONTENT@) is Some,
        TARGET_ROWS_START_INDEX <= a < k,
        TARGET_ROWS_START_INDEX <= b < k,
        k <= content_rows(wb).len(),
        codes_in(content_rows(wb), TARGET_ROWS_START_INDEX as int, k),
        is_supp_code(code_at(content_rows(wb)[a])),
        !is_supp_code(code_at(content_rows(wb)[b])),
        code_at(content_rows(wb)[b]) == code_at(content_rows(wb)[a]).skip(
            SUPP_PREFIX@.len() as int,
        ),
        upper_of(lower_of(code_at(content_rows(wb)[b]))) == code_at(content_rows(wb)[b]),
        sdtm_read(wb) is Ok,
    ensures
        exists|m: int|
            0 <= m < sdtm_read(wb)->Ok_0.len() && sdtm_read(wb)->Ok_0[m] == sdtm_item(
                code_at(content_rows(wb)[b]),
                true,
            ),
{
    let sheet = sheet_named(wb, CONTENT@)->0;
    let rows = sheet.rows;
    lemma_sdtm_scan_facts(wb, sheet.name, rows, TARGET_ROWS_START_INDEX as int, k);
    let s = sdtm_scan(wb, sheet.name, rows, TARGET_ROWS_START_INDEX as int)->Ok_0;
    let code = code_at(rows[b]);
    assert(!is_supp_code(code_at(rows[b])));
    assert(is_supp_code(code_at(rows[a])));
    let m = choose|m: int| 0 <= m < s.items.len() && s.items[m].name == lower_of(code);
    assert(names_of(s.items)[m] == lower_of(code));
    lemma_read_item_named(wb, lower_of(code));
    let kept = first_of_each_name(s.items);
    let (m2, j) = choose|m2: int, j: int|
        0 <= m2 < sdtm_read(wb)->Ok_0.len() && TARGET_ROWS_START_INDEX <= j < rows.len()
            && sdtm_read(wb)->Ok_0[m2].name == lower_of(code) && #[trigger] item_from_row(
            wb,
            rows,
            j,
            kept[m2],
        ) && sdtm_read(wb)->Ok_0[m2] == reconcile_item(kept[m2], s.declared);
    assert(sdtm_read(wb)->Ok_0[m2] == sdtm_item(code, true));
}

/// A domain whose detail sheet, read bottom-up, first shows the supplemental
/// marker in its group column is reported with a supplemental dataset, where
/// no other domain code of the content sheet has the same lower-case name.
pub proof fn lemma_detail_supp_reported(wb: Seq<SheetView>, b: int, k: int)
    requires
        sheet_named(wb, CONTENT@) is Some,
        TARGET_ROWS_START_INDEX <= b < k,
        k <= content_rows(wb).len(),
        codes_in(content_rows(wb), TARGET_ROWS_START_INDEX as int, k),
        !is_supp_code(code_at(content_rows(wb)[b])),
        detail_supp(wb, code_at(content_rows(wb)[b])) == Ok::<bool, ReadErrorView>(true),
        forall|j: int|
            TARGET_ROWS_START_INDEX <= j < content_rows(wb).len() && lower_of(
                #[trigger] code_at(content_rows(wb)[j]),
            ) == lower_of(code_at(content_rows(wb)[b])) ==> code_at(content_rows(wb)[j])
                == code_at(content_rows(wb)[b]),
        sdtm_read(wb) is Ok,
    ensures
        exists|m: int|
            0 <= m < sdtm_read(wb)->Ok_0.len() && sdtm_read(wb)->Ok_0[m] == sdtm_item(
                code_at(content_rows(wb)[b]),
                true,
            ),
{
    let sheet = sheet_named(wb, CONTENT@)->0;
    let rows = sheet.rows;
    lemma_sdtm_scan_facts(wb, sheet.name, rows, TARGET_ROWS_START_INDEX as int, k);
    let s = sdtm_scan(wb, sheet.name, rows, TARGET_ROWS_START_INDEX as int)->Ok_0;
    let code = code_at(rows[b]);
    assert(!is_supp_code(code_at(rows[b])));
    let m = choose|m: int| 0 <= m < s.items.len() && s.items[m].name == lower_of(code);
    assert(names_of(s.items)[m] == lower_of(code));
    lemma_read_item_named(wb, lower_of(code));
    let kept = first_of_each_name(s.items);
    let (m2, j) = choose|m2: int, j: int|
        0 <= m2 < sdtm_read(wb)->Ok_0.len() && TARGET_ROWS_START_INDEX <= j < rows.len()
            && sdtm_read(wb)->Ok_0[m2].name == lower_of(code) && #[trigger] item_from_row(
            wb,
            rows,
            j,
            kept[m2],
        ) && sdtm_read(wb)->Ok_0[m2] == reconcile_item(kept[m2], s.declared);
    assert(lower_of(code_at(rows[j])) == lower_of(code));
    assert(code_at(rows[j]) == code);
    assert(sdtm_read(wb)->Ok_0[m2] == sdtm_item(code, true));
}

} // verus!

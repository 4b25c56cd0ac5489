//! The cells of a workbook, as plain values.
//!
//! A cell is empty, holds text (numbers arrive already written as text), or
//! holds something else that cannot be read as text.

use vstd::prelude::*;

verus! {

#[derive(Clone, Debug)]
pub enum Cell {
    Empty,
    Text(String),
    Other,
}

pub enum CellView {
    Empty,
    Text(Seq<char>),
    Other,
}

impl View for Cell {
    type V = CellView;

    open spec fn view(&self) -> CellView {
        match self {
            Cell::Empty => CellView::Empty,
            Cell::Text(s) => CellView::Text(s@),
            Cell::Other => CellView::Other,
        }
    }
}

/// One named sheet: its rows, top to bottom, each a row of cells left to right.
#[derive(Clone, Debug)]
pub struct Sheet {
    pub name: String,
    pub rows: Vec<Vec<Cell>>,
}

pub struct SheetView {
    pub name: Seq<char>,
    pub rows: Seq<Seq<CellView>>,
}

pub open spec fn row_view(row: Vec<Cell>) -> Seq<CellView> {
    row@.map_values(|c: Cell| c@)
}

impl View for Sheet {
    type V = SheetView;

    open spec fn view(&self) -> SheetView {
        SheetView { name: self.name@, rows: self.rows@.map_values(|r: Vec<Cell>| row_view(r)) }
    }
}

/// The sheets of a workbook, in workbook order.
#[derive(Clone, Debug)]
pub struct Workbook {
    pub sheets: Vec<Sheet>,
}

impl View for Workbook {
    type V = Seq<SheetView>;

    open spec fn view(&self) -> Seq<SheetView> {
        self.sheets@.map_values(|s: Sheet| s@)
    }
}

/// The cell at column `col` of a row, if the row reaches that far.
pub open spec fn cell_at(row: Seq<CellView>, col: int) -> Option<CellView> {
    if 0 <= col < row.len() {
        Some(row[col])
    } else {
        None
    }
}

/// The first sheet called `name`.
pub open spec fn sheet_named(sheets: Seq<SheetView>, name: Seq<char>) -> Option<SheetView>
    decreases sheets.len(),
{
    if sheets.len() == 0 {
        None
    } else if sheets[0].name == name {
        Some(sheets[0])
    } else {
        sheet_named(sheets.drop_first(), name)
    }
}

impl Workbook {
    /// The first sheet called `name`, if there is one.
    pub fn sheet(&self, name: &String) -> (r: Option<&Sheet>)
        ensures
            match r {
                Some(s) => sheet_named(self@, name@) == Some(s@),
                None => sheet_named(self@, name@) is None,
            },
    {
        let mut i: usize = 0;
        assert(self@.skip(0) =~= self@);
        while i < self.sheets.len()
            invariant
                i <= self.sheets@.len(),
                sheet_named(self@, name@) == sheet_named(self@.skip(i as int), name@),
            decreases self.sheets@.len() - i,
        {
            assert(self@.skip(i as int).drop_first() =~= self@.skip(i + 1));
            if self.sheets[i].name == *name {
                return Some(&self.sheets[i]);
            }
            i = i + 1;
        }
        None
    }
}

/// The cell at column `col` of `row`, if the row reaches that far.
pub fn cell(row: &Vec<Cell>, col: usize) -> (r: Option<&Cell>)
    ensures
        match r {
            Some(c) => cell_at(row_view(*row), col as int) == Some(c@),
            None => cell_at(row_view(*row), col as int) is None,
        },
{
    if col < row.len() {
        Some(&row[col])
    } else {
        None
    }
}

} // verus!
